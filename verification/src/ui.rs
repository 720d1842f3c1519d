//! The state and small rules of the interface's widgets: the spinner, file
//! icons, syntax classes of source words, and the push and settings dialogs.
use vstd::prelude::*;
use crate::text::{
    ends_with, ends_with_seq, insert_char_at, is_ws, remove_char_at, char_count, to_chars, trim,
    trim_bounds,
};
use crate::git::{is_alnum, char_is_alphanumeric};

verus! {

// ── Spinner ─────────────────────────────────────────────────────────────────

/// The spinner glyph at position `i` of its ten-step cycle.
pub open spec fn spinner_glyph(i: int) -> Seq<char> {
    if i == 0 {
        "⠋"@
    } else if i == 1 {
        "⠙"@
    } else if i == 2 {
        "⠹"@
    } else if i == 3 {
        "⠸"@
    } else if i == 4 {
        "⠼"@
    } else if i == 5 {
        "⠴"@
    } else if i == 6 {
        "⠦"@
    } else if i == 7 {
        "⠧"@
    } else if i == 8 {
        "⠇"@
    } else {
        "⠏"@
    }
}

/// The spinner glyph for a frame: the cycle advances every second frame.
pub fn spinner_char(frame: u64) -> (r: &'static str)
    ensures
        r@ == spinner_glyph((((frame / 2) as usize) % 10) as int),
{
    let i = ((frame / 2) as usize) % 10;
    if i == 0 {
        "⠋"
    } else if i == 1 {
        "⠙"
    } else if i == 2 {
        "⠹"
    } else if i == 3 {
        "⠸"
    } else if i == 4 {
        "⠼"
    } else if i == 5 {
        "⠴"
    } else if i == 6 {
        "⠦"
    } else if i == 7 {
        "⠧"
    } else if i == 8 {
        "⠇"
    } else {
        "⠏"
    }
}

// ── File icons ──────────────────────────────────────────────────────────────

/// The lower-case form of a text, as `str::to_lowercase` gives it.
pub uninterp spec fn lowercase(s: Seq<char>) -> Seq<char>;

/// `str::to_lowercase`.
#[verifier::external_body]
pub(crate) fn to_lowercase(s: &str) -> (r: String)
    ensures
        r@ == lowercase(s@),
{
    s.to_lowercase()
}

/// Whether a lower-cased path names a Dockerfile: its last component is
/// `dockerfile`.
pub open spec fn is_dockerfile(p: Seq<char>) -> bool {
    p == "dockerfile"@ || ends_with(p, "/dockerfile"@)
}

/// The icon of a file in the repository tree, by its lower-cased name:
/// 🦀 Rust, 🐍 Python, `JS`, `TS`, `{}` JSON, ⚙️ TOML/INI, 📝 Markdown,
/// ⚡ shell scripts, 🔒 lock files, 🐳 Dockerfile, 📦 archives, 🖼️ images,
/// 📄 anything else.
pub open spec fn tree_icon(path: Seq<char>) -> Seq<char> {
    let p = lowercase(path);
    if ends_with(p, ".rs"@) {
        "🦀"@
    } else if ends_with(p, ".py"@) {
        "🐍"@
    } else if ends_with(p, ".js"@) {
        "JS"@
    } else if ends_with(p, ".ts"@) {
        "TS"@
    } else if ends_with(p, ".json"@) {
        "{}"@
    } else if ends_with(p, ".md"@) {
        "📝"@
    } else if ends_with(p, ".toml"@) || ends_with(p, ".ini"@) {
        "⚙️"@
    } else if ends_with(p, ".sh"@) || ends_with(p, ".bash"@) {
        "⚡"@
    } else if ends_with(p, ".lock"@) {
        "🔒"@
    } else if is_dockerfile(p) {
        "🐳"@
    } else if ends_with(p, ".zip"@) || ends_with(p, ".tar"@) || ends_with(p, ".gz"@) {
        "📦"@
    } else if ends_with(p, ".png"@) || ends_with(p, ".jpg"@) || ends_with(p, ".svg"@) {
        "🖼️"@
    } else {
        "📄"@
    }
}

fn ends(p: &Vec<char>, suf: &str) -> (r: bool)
    ensures
        r == ends_with(p@, suf@),
{
    let s = to_chars(suf);
    ends_with_seq(p.as_slice(), s.as_slice())
}

/// The icon of a file in the repository tree (see `tree_icon`).
pub fn file_icon(path: &str) -> (r: &'static str)
    ensures
        r@ == tree_icon(path@),
{
    let low = to_lowercase(path);
    let p = to_chars(low.as_str());
    if ends(&p, ".rs") {
        "🦀"
    } else if ends(&p, ".py") {
        "🐍"
    } else if ends(&p, ".js") {
        "JS"
    } else if ends(&p, ".ts") {
        "TS"
    } else if ends(&p, ".json") {
        "{}"
    } else if ends(&p, ".md") {
        "📝"
    } else if ends(&p, ".toml") || ends(&p, ".ini") {
        "⚙️"
    } else if ends(&p, ".sh") || ends(&p, ".bash") {
        "⚡"
    } else if ends(&p, ".lock") {
        "🔒"
    } else if crate::text::str_eq(low.as_str(), "dockerfile") || ends(&p, "/dockerfile") {
        "🐳"
    } else if ends(&p, ".zip") || ends(&p, ".tar") || ends(&p, ".gz") {
        "📦"
    } else if ends(&p, ".png") || ends(&p, ".jpg") || ends(&p, ".svg") {
        "🖼️"
    } else {
        "📄"
    }
}

/// The part of a name after its last `'.'` (all of it when it has none).
pub open spec fn extension_of(name: Seq<char>) -> Seq<char>
    decreases name.len(),
{
    if name.len() == 0 {
        name
    } else if name.last() == '.' {
        Seq::empty()
    } else {
        extension_of(name.drop_last()).push(name.last())
    }
}

/// The icon of a file in the download picker, by its lower-cased extension
/// (the whole name when it has no `'.'`, so that a `Dockerfile` gets 🐳; two
/// spaces for any other extension).
pub open spec fn grab_icon(name: Seq<char>) -> Seq<char> {
    let e = lowercase(extension_of(name));
    if e == "rs"@ {
        "🦀"@
    } else if e == "js"@ || e == "mjs"@ || e == "cjs"@ {
        "JS"@
    } else if e == "ts"@ || e == "tsx"@ {
        "TS"@
    } else if e == "jsx"@ {
        "⚛ "@
    } else if e == "html"@ || e == "htm"@ {
        "🌐"@
    } else if e == "css"@ || e == "scss"@ || e == "sass"@ {
        "🎨"@
    } else if e == "json"@ {
        "{}"@
    } else if e == "toml"@ || e == "ini"@ || e == "cfg"@ {
        "⚙ "@
    } else if e == "yaml"@ || e == "yml"@ {
        "📋"@
    } else if e == "env"@ {
        "🔑"@
    } else if e == "md"@ || e == "mdx"@ {
        "📝"@
    } else if e == "txt"@ {
        "📃"@
    } else if e == "sh"@ || e == "bash"@ || e == "zsh"@ || e == "fish"@ {
        "⚡"@
    } else if e == "py"@ {
        "🐍"@
    } else if e == "rb"@ {
        "💎"@
    } else if e == "go"@ {
        "🐹"@
    } else if e == "java"@ || e == "kt"@ {
        "☕"@
    } else if e == "c"@ || e == "h"@ {
        "C "@
    } else if e == "cpp"@ || e == "cc"@ || e == "cxx"@ || e == "hpp"@ {
        "C+"@
    } else if e == "cs"@ {
        "C#"@
    } else if e == "php"@ {
        "🐘"@
    } else if e == "swift"@ {
        "🍎"@
    } else if e == "lock"@ {
        "🔒"@
    } else if e == "log"@ {
        "📜"@
    } else if e == "png"@ || e == "jpg"@ || e == "jpeg"@ || e == "gif"@ || e == "svg"@ || e == "webp"@ || e == "ico"@ {
        "🖼 "@
    } else if e == "zip"@ || e == "tar"@ || e == "gz"@ || e == "bz2"@ {
        "📦"@
    } else if e == "sql"@ || e == "db"@ || e == "sqlite"@ {
        "🗃 "@
    } else if e == "xml"@ {
        "📄"@
    } else if e == "pdf"@ {
        "📕"@
    } else if e == "dockerfile"@ {
        "🐳"@
    } else {
        "  "@
    }
}

/// The characters after the last `'.'` of a name.
fn ext_chars(cs: &[char]) -> (r: Vec<char>)
    ensures
        r@ == extension_of(cs@),
{
    let mut k = cs.len();
    proof {
        assert(cs@.take(cs@.len() as int) =~= cs@);
        assert(cs@ + cs@.subrange(cs@.len() as int, cs@.len() as int) =~= cs@);
    }
    while k > 0 && cs[k - 1] != '.'
        invariant
            k <= cs@.len(),
            extension_of(cs@) == extension_of(cs@.take(k as int)) + cs@.subrange(k as int, cs@.len() as int),
        decreases k,
    {
        proof {
            let pre = cs@.take(k as int);
            assert(pre.drop_last() =~= cs@.take(k - 1));
            assert(pre.last() == cs@[k - 1]);
            assert(extension_of(cs@.take(k - 1)).push(cs@[k - 1]) + cs@.subrange(k as int, cs@.len() as int)
                =~= extension_of(cs@.take(k - 1)) + cs@.subrange(k - 1, cs@.len() as int));
        }
        k = k - 1;
    }
    proof {
        if k > 0 {
            assert(cs@.take(k as int).last() == '.');
            assert(extension_of(cs@.take(k as int)) =~= Seq::<char>::empty());
        } else {
            assert(cs@.take(0).len() == 0);
        }
    }
    let mut v: Vec<char> = Vec::new();
    let mut i = k;
    while i < cs.len()
        invariant
            k <= i <= cs@.len(),
            v@ == cs@.subrange(k as int, i as int),
        decreases cs@.len() - i,
    {
        v.push(cs[i]);
        proof { assert(cs@.subrange(k as int, i + 1) =~= cs@.subrange(k as int, i as int).push(cs@[i as int])); }
        i = i + 1;
    }
    v
}

/// The icon of a file in the download picker (see `grab_icon`).
pub fn grab_file_icon(name: &str) -> (r: &'static str)
    ensures
        r@ == grab_icon(name@),
{
    let cs = to_chars(name);
    let raw = crate::text::from_chars(ext_chars(cs.as_slice()).as_slice());
    let low = to_lowercase(raw.as_str());
    let e = low.as_str();
    if crate::text::str_eq(e, "rs") {
        "🦀"
    } else if crate::text::str_eq(e, "js") || crate::text::str_eq(e, "mjs") || crate::text::str_eq(e, "cjs") {
        "JS"
    } else if crate::text::str_eq(e, "ts") || crate::text::str_eq(e, "tsx") {
        "TS"
    } else if crate::text::str_eq(e, "jsx") {
        "⚛ "
    } else if crate::text::str_eq(e, "html") || crate::text::str_eq(e, "htm") {
        "🌐"
    } else if crate::text::str_eq(e, "css") || crate::text::str_eq(e, "scss") || crate::text::str_eq(e, "sass") {
        "🎨"
    } else if crate::text::str_eq(e, "json") {
        "{}"
    } else if crate::text::str_eq(e, "toml") || crate::text::str_eq(e, "ini") || crate::text::str_eq(e, "cfg") {
        "⚙ "
    } else if crate::text::str_eq(e, "yaml") || crate::text::str_eq(e, "yml") {
        "📋"
    } else if crate::text::str_eq(e, "env") {
        "🔑"
    } else if crate::text::str_eq(e, "md") || crate::text::str_eq(e, "mdx") {
        "📝"
    } else if crate::text::str_eq(e, "txt") {
        "📃"
    } else if crate::text::str_eq(e, "sh") || crate::text::str_eq(e, "bash") || crate::text::str_eq(e, "zsh") || crate::text::str_eq(e, "fish") {
        "⚡"
    } else if crate::text::str_eq(e, "py") {
        "🐍"
    } else if crate::text::str_eq(e, "rb") {
        "💎"
    } else if crate::text::str_eq(e, "go") {
        "🐹"
    } else if crate::text::str_eq(e, "java") || crate::text::str_eq(e, "kt") {
        "☕"
    } else if crate::text::str_eq(e, "c") || crate::text::str_eq(e, "h") {
        "C "
    } else if crate::text::str_eq(e, "cpp") || crate::text::str_eq(e, "cc") || crate::text::str_eq(e, "cxx") || crate::text::str_eq(e, "hpp") {
        "C+"
    } else if crate::text::str_eq(e, "cs") {
        "C#"
    } else if crate::text::str_eq(e, "php") {
        "🐘"
    } else if crate::text::str_eq(e, "swift") {
        "🍎"
    } else if crate::text::str_eq(e, "lock") {
        "🔒"
    } else if crate::text::str_eq(e, "log") {
        "📜"
    } else if crate::text::str_eq(e, "png") || crate::text::str_eq(e, "jpg") || crate::text::str_eq(e, "jpeg") || crate::text::str_eq(e, "gif") || crate::text::str_eq(e, "svg") || crate::text::str_eq(e, "webp") || crate::text::str_eq(e, "ico") {
        "🖼 "
    } else if crate::text::str_eq(e, "zip") || crate::text::str_eq(e, "tar") || crate::text::str_eq(e, "gz") || crate::text::str_eq(e, "bz2") {
        "📦"
    } else if crate::text::str_eq(e, "sql") || crate::text::str_eq(e, "db") || crate::text::str_eq(e, "sqlite") {
        "🗃 "
    } else if crate::text::str_eq(e, "xml") {
        "📄"
    } else if crate::text::str_eq(e, "pdf") {
        "📕"
    } else if crate::text::str_eq(e, "dockerfile") {
        "🐳"
    } else {
        "  "
    }
}

// ── Syntax classes ─────────────────────────────────────────────────────────

/// A Rust keyword the editor colours.
pub open spec fn keyword_word(w: Seq<char>) -> bool {
    w == "pub"@
        || w == "fn"@
        || w == "use"@
        || w == "let"@
        || w == "match"@
        || w == "mut"@
        || w == "if"@
        || w == "else"@
        || w == "impl"@
        || w == "struct"@
        || w == "enum"@
        || w == "trait"@
        || w == "type"@
        || w == "for"@
        || w == "in"@
        || w == "while"@
        || w == "loop"@
        || w == "return"@
        || w == "break"@
        || w == "continue"@
        || w == "as"@
        || w == "async"@
        || w == "await"@
        || w == "mod"@
        || w == "crate"@
        || w == "self"@
        || w == "Self"@
        || w == "where"@
}

/// Whether a word is one of the coloured keywords.
pub fn is_keyword(w: &str) -> (r: bool)
    ensures
        r == keyword_word(w@),
{
    crate::text::str_eq(w, "pub")
        || crate::text::str_eq(w, "fn")
        || crate::text::str_eq(w, "use")
        || crate::text::str_eq(w, "let")
        || crate::text::str_eq(w, "match")
        || crate::text::str_eq(w, "mut")
        || crate::text::str_eq(w, "if")
        || crate::text::str_eq(w, "else")
        || crate::text::str_eq(w, "impl")
        || crate::text::str_eq(w, "struct")
        || crate::text::str_eq(w, "enum")
        || crate::text::str_eq(w, "trait")
        || crate::text::str_eq(w, "type")
        || crate::text::str_eq(w, "for")
        || crate::text::str_eq(w, "in")
        || crate::text::str_eq(w, "while")
        || crate::text::str_eq(w, "loop")
        || crate::text::str_eq(w, "return")
        || crate::text::str_eq(w, "break")
        || crate::text::str_eq(w, "continue")
        || crate::text::str_eq(w, "as")
        || crate::text::str_eq(w, "async")
        || crate::text::str_eq(w, "await")
        || crate::text::str_eq(w, "mod")
        || crate::text::str_eq(w, "crate")
        || crate::text::str_eq(w, "self")
        || crate::text::str_eq(w, "Self")
        || crate::text::str_eq(w, "where")
}

/// A type name the editor colours.
pub open spec fn type_word(w: Seq<char>) -> bool {
    w == "String"@
        || w == "Result"@
        || w == "Option"@
        || w == "Vec"@
        || w == "u8"@
        || w == "u16"@
        || w == "u32"@
        || w == "u64"@
        || w == "u128"@
        || w == "i8"@
        || w == "i16"@
        || w == "i32"@
        || w == "i64"@
        || w == "i128"@
        || w == "f32"@
        || w == "f64"@
        || w == "bool"@
        || w == "char"@
        || w == "str"@
        || w == "Path"@
        || w == "PathBuf"@
        || w == "Arc"@
        || w == "Mutex"@
}

/// Whether a word is one of the coloured type names.
pub fn is_type(w: &str) -> (r: bool)
    ensures
        r == type_word(w@),
{
    crate::text::str_eq(w, "String")
        || crate::text::str_eq(w, "Result")
        || crate::text::str_eq(w, "Option")
        || crate::text::str_eq(w, "Vec")
        || crate::text::str_eq(w, "u8")
        || crate::text::str_eq(w, "u16")
        || crate::text::str_eq(w, "u32")
        || crate::text::str_eq(w, "u64")
        || crate::text::str_eq(w, "u128")
        || crate::text::str_eq(w, "i8")
        || crate::text::str_eq(w, "i16")
        || crate::text::str_eq(w, "i32")
        || crate::text::str_eq(w, "i64")
        || crate::text::str_eq(w, "i128")
        || crate::text::str_eq(w, "f32")
        || crate::text::str_eq(w, "f64")
        || crate::text::str_eq(w, "bool")
        || crate::text::str_eq(w, "char")
        || crate::text::str_eq(w, "str")
        || crate::text::str_eq(w, "Path")
        || crate::text::str_eq(w, "PathBuf")
        || crate::text::str_eq(w, "Arc")
        || crate::text::str_eq(w, "Mutex")
}

/// A piece that ends in `(` reads as a call.
pub fn is_function_call(w: &str) -> (r: bool)
    ensures
        r == ends_with(w@, "("@),
{
    let cs = to_chars(w);
    let p = to_chars("(");
    ends_with_seq(cs.as_slice(), p.as_slice())
}

/// A character that operators are made of.
pub open spec fn operator_char(c: char) -> bool {
    c == '=' || c == '>' || c == '<' || c == '!' || c == '&' || c == '|' || c == '+' || c == '-'
        || c == '*' || c == '/' || c == '%' || c == '^' || c == ':'
}

/// A piece whose trimmed text is made of operator characters only.
pub open spec fn operator_word(w: Seq<char>) -> bool {
    forall|i: int| 0 <= i < trim(w).len() ==> operator_char(#[trigger] trim(w)[i])
}

/// Whether a piece is an operator (see `operator_word`).
pub fn is_operator(w: &str) -> (r: bool)
    ensures
        r == operator_word(w@),
{
    let cs = to_chars(w);
    let (a, b) = trim_bounds(cs.as_slice(), 0, cs.len());
    proof { assert(cs@.subrange(0, cs@.len() as int) =~= cs@); }
    let ghost t = cs@.subrange(a as int, b as int);
    proof { assert(t == trim(w@)); }
    let mut i = a;
    while i < b
        invariant
            a <= i <= b <= cs@.len(),
            t == cs@.subrange(a as int, b as int),
            t == trim(w@),
            forall|j: int| 0 <= j < i - a ==> operator_char(#[trigger] t[j]),
        decreases b - i,
    {
        let c = cs[i];
        if !(c == '=' || c == '>' || c == '<' || c == '!' || c == '&' || c == '|' || c == '+' || c
            == '-' || c == '*' || c == '/' || c == '%' || c == '^' || c == ':') {
            proof { assert(t[i - a] == c); }
            return false;
        }
        proof { assert(t[i - a] == c); }
        i = i + 1;
    }
    true
}

// ── Push dialog ─────────────────────────────────────────────────────────────

/// The focused field of the push dialog.
#[derive(Debug, Clone, Copy, PartialEq, Eq, Structural)]
pub enum PushField {
    RepoName,
    CommitMsg,
    Branch,
    Origin,
}

/// The field after `f`, wrapping around.
pub open spec fn push_next(f: PushField) -> PushField {
    match f {
        PushField::RepoName => PushField::CommitMsg,
        PushField::CommitMsg => PushField::Branch,
        PushField::Branch => PushField::Origin,
        PushField::Origin => PushField::RepoName,
    }
}

/// The field before `f`, wrapping around.
pub open spec fn push_prev(f: PushField) -> PushField {
    match f {
        PushField::RepoName => PushField::Origin,
        PushField::CommitMsg => PushField::RepoName,
        PushField::Branch => PushField::CommitMsg,
        PushField::Origin => PushField::Branch,
    }
}

impl PushField {
    /// The next field.
    pub fn next(&self) -> (r: Self)
        ensures
            r == push_next(*self),
    {
        match self {
            PushField::RepoName => PushField::CommitMsg,
            PushField::CommitMsg => PushField::Branch,
            PushField::Branch => PushField::Origin,
            PushField::Origin => PushField::RepoName,
        }
    }

    /// The previous field.
    pub fn prev(&self) -> (r: Self)
        ensures
            r == push_prev(*self),
    {
        match self {
            PushField::RepoName => PushField::Origin,
            PushField::CommitMsg => PushField::RepoName,
            PushField::Branch => PushField::CommitMsg,
            PushField::Origin => PushField::Branch,
        }
    }
}

/// Moving to the next push field and back (or back and on) returns to the
/// field one started from, and four moves go all the way round.
pub proof fn lemma_push_field_cycle(f: PushField)
    ensures
        push_prev(push_next(f)) == f,
        push_next(push_prev(f)) == f,
        push_next(push_next(push_next(push_next(f)))) == f,
{
}

/// The push dialog.
#[derive(Debug, Clone)]
pub struct PushDialogState {
    pub repo_name: String,
    pub commit_msg: String,
    pub branch: String,
    pub branch_list: Vec<String>,
    pub branch_cursor: usize,
    pub branch_open: bool,
    pub origin: String,
    pub focused: PushField,
    pub cursor: usize,
    pub is_pushing: bool,
    pub status_msg: String,
    pub frame_count: u64,
    pub username: String,
    pub recent_commits: Vec<String>,
    pub has_commits: bool,
    pub force_push: bool,
}

/// The text of the focused field.
pub open spec fn push_active(s: PushDialogState) -> Seq<char> {
    match s.focused {
        PushField::RepoName => s.repo_name@,
        PushField::CommitMsg => s.commit_msg@,
        PushField::Branch => s.branch@,
        PushField::Origin => s.origin@,
    }
}

/// The dialog after its focused field's text became `t`, all else equal.
pub open spec fn push_active_set(s: PushDialogState, t: String) -> PushDialogState {
    match s.focused {
        PushField::RepoName => PushDialogState { repo_name: t, ..s },
        PushField::CommitMsg => PushDialogState { commit_msg: t, ..s },
        PushField::Branch => PushDialogState { branch: t, ..s },
        PushField::Origin => PushDialogState { origin: t, ..s },
    }
}

/// The `https://github.com/<user>/<repo>.git` URL of the dialog's fields.
pub open spec fn origin_of(username: Seq<char>, repo: Seq<char>) -> Seq<char> {
    "https://github.com/"@ + trim(username) + "/"@ + trim(repo) + ".git"@
}

impl PushDialogState {
    /// A dialog for branch `main` with every text field empty.
    pub fn new() -> (r: Self)
        ensures
            r.repo_name@ == Seq::<char>::empty(),
            r.commit_msg@ == Seq::<char>::empty(),
            r.branch@ == "main"@,
            crate::git::strs_view(r.branch_list@) == seq!["main"@],
            r.branch_cursor == 0,
            !r.branch_open,
            r.origin@ == Seq::<char>::empty(),
            r.focused == PushField::RepoName,
            r.cursor == 0,
            !r.is_pushing,
            r.status_msg@ == Seq::<char>::empty(),
            r.frame_count == 0,
            r.username@ == Seq::<char>::empty(),
            r.recent_commits@.len() == 0,
            r.has_commits,
            !r.force_push,
    {
        let mut branch_list: Vec<String> = Vec::new();
        branch_list.push(String::from_str("main"));
        proof { assert(crate::git::strs_view(branch_list@) =~= seq!["main"@]); }
        PushDialogState {
            repo_name: String::new(),
            commit_msg: String::new(),
            branch: String::from_str("main"),
            branch_list,
            branch_cursor: 0,
            branch_open: false,
            origin: String::new(),
            focused: PushField::RepoName,
            cursor: 0,
            is_pushing: false,
            status_msg: String::new(),
            frame_count: 0,
            username: String::new(),
            recent_commits: Vec::new(),
            has_commits: true,
            force_push: false,
        }
    }

    /// Fills the origin from the user name and repository name, or clears it
    /// when either is empty.
    pub fn update_origin(&mut self)
        ensures
            final(self).origin@ == if old(self).username@.len() > 0 && old(self).repo_name@.len() > 0 {
                origin_of(old(self).username@, old(self).repo_name@)
            } else {
                Seq::<char>::empty()
            },
            *final(self) == (PushDialogState { origin: final(self).origin, ..*old(self) }),
    {
        if char_count(self.username.as_str()) > 0 && char_count(self.repo_name.as_str()) > 0 {
            let mut o = String::from_str("https://github.com/");
            let u = crate::text::trim_str(self.username.as_str());
            let r = crate::text::trim_str(self.repo_name.as_str());
            crate::text::push_str(&mut o, u.as_str());
            crate::text::push_str(&mut o, "/");
            crate::text::push_str(&mut o, r.as_str());
            crate::text::push_str(&mut o, ".git");
            self.origin = o;
        } else {
            self.origin = String::new();
        }
    }

    /// The text of the focused field.
    pub fn active_text(&self) -> (r: &str)
        ensures
            r@ == push_active(*self),
    {
        match self.focused {
            PushField::RepoName => self.repo_name.as_str(),
            PushField::CommitMsg => self.commit_msg.as_str(),
            PushField::Branch => self.branch.as_str(),
            PushField::Origin => self.origin.as_str(),
        }
    }

    /// The focused field's text, to edit in place.
    pub fn active_text_mut(&mut self) -> (r: &mut String)
        ensures
            r@ == push_active(*old(self)),
            *final(self) == push_active_set(*old(self), *final(r)),
    {
        match self.focused {
            PushField::RepoName => &mut self.repo_name,
            PushField::CommitMsg => &mut self.commit_msg,
            PushField::Branch => &mut self.branch,
            PushField::Origin => &mut self.origin,
        }
    }
}

/// The focused field's string.
pub open spec fn push_active_string(s: PushDialogState) -> String {
    match s.focused {
        PushField::RepoName => s.repo_name,
        PushField::CommitMsg => s.commit_msg,
        PushField::Branch => s.branch,
        PushField::Origin => s.origin,
    }
}

/// Where typing inserts: at the cursor, or at the end when the cursor is
/// past it.
pub open spec fn insert_pos(len: nat, cursor: usize) -> int {
    if cursor <= len {
        cursor as int
    } else {
        len as int
    }
}

/// Which character backspace removes: the one before the cursor, or the
/// first when the cursor is past the end.
pub open spec fn backspace_pos(len: nat, cursor: usize) -> int {
    if cursor - 1 < len {
        cursor - 1
    } else {
        0
    }
}

impl PushDialogState {
    /// Keeps the cursor within the focused field's text.
    pub fn clamp_cursor(&mut self)
        ensures
            final(self).cursor == if old(self).cursor > push_active(*old(self)).len() {
                push_active(*old(self)).len() as usize
            } else {
                old(self).cursor
            },
            *final(self) == (PushDialogState { cursor: final(self).cursor, ..*old(self) }),
    {
        let len = char_count(self.active_text());
        if self.cursor > len {
            self.cursor = len;
        }
    }

    /// Types `c` at the cursor and moves the cursor past it.
    pub fn type_char(&mut self, c: char)
        requires
            old(self).cursor < usize::MAX,
        ensures
            push_active(*final(self)) == push_active(*old(self)).insert(
                insert_pos(push_active(*old(self)).len(), old(self).cursor),
                c,
            ),
            *final(self) == (PushDialogState {
                cursor: (old(self).cursor + 1) as usize,
                ..push_active_set(*old(self), push_active_string(*final(self)))
            }),
    {
        let cur = self.cursor;
        let text = self.active_text_mut();
        insert_char_at(text, cur, c);
        self.cursor = self.cursor + 1;
    }

    /// Deletes the character before the cursor (the first one when the
    /// cursor is past the end) and moves the cursor back; nothing at the
    /// start.
    pub fn backspace(&mut self)
        requires
            old(self).cursor > 0 ==> push_active(*old(self)).len() > 0,
        ensures
            old(self).cursor == 0 ==> *final(self) == *old(self),
            old(self).cursor > 0 ==> push_active(*final(self)) == push_active(*old(self)).remove(
                backspace_pos(push_active(*old(self)).len(), old(self).cursor),
            ) && *final(self) == (PushDialogState {
                cursor: (old(self).cursor - 1) as usize,
                ..push_active_set(*old(self), push_active_string(*final(self)))
            }),
    {
        if self.cursor > 0 {
            let cur = self.cursor;
            let len = char_count(self.active_text());
            let at = if cur - 1 < len {
                cur - 1
            } else {
                0
            };
            let text = self.active_text_mut();
            remove_char_at(text, at);
            self.cursor = self.cursor - 1;
        }
    }

    /// Puts the dropdown cursor on the selected branch (the first entry when
    /// it is not listed).
    pub fn sync_branch_cursor(&mut self)
        ensures
            ({
                let names = crate::git::strs_view(old(self).branch_list@);
                if names.contains(old(self).branch@) {
                    final(self).branch_cursor < names.len() && names[final(self).branch_cursor as int]
                        == old(self).branch@ && forall|j: int|
                        0 <= j < final(self).branch_cursor ==> names[j] != old(self).branch@
                } else {
                    final(self).branch_cursor == 0
                }
            }),
            *final(self) == (PushDialogState { branch_cursor: final(self).branch_cursor, ..*old(self) }),
    {
        let ghost names = crate::git::strs_view(self.branch_list@);
        let mut i: usize = 0;
        while i < self.branch_list.len()
            invariant
                i <= self.branch_list@.len(),
                *self == *old(self),
                names == crate::git::strs_view(self.branch_list@),
                forall|j: int| 0 <= j < i ==> names[j] != self.branch@,
            decreases self.branch_list@.len() - i,
        {
            if self.branch_list[i] == self.branch {
                proof { assert(names[i as int] == self.branch@); }
                self.branch_cursor = i;
                return;
            }
            i = i + 1;
        }
        proof {
            if names.contains(self.branch@) {
                let k = choose|k: int| 0 <= k < names.len() && names[k] == self.branch@;
                assert(names[k] != self.branch@);
            }
        }
        self.branch_cursor = 0;
    }

    /// Takes the branch under the dropdown cursor (when there is one), puts
    /// the text cursor at its end, and closes the dropdown.
    pub fn select_branch(&mut self)
        ensures
            old(self).branch_cursor < old(self).branch_list@.len() ==> final(self).branch
                == old(self).branch_list@[old(self).branch_cursor as int] && final(self).cursor
                == final(self).branch@.len(),
            old(self).branch_cursor >= old(self).branch_list@.len() ==> final(self).branch == old(self).branch
                && final(self).cursor == old(self).cursor,
            !final(self).branch_open,
            *final(self) == (PushDialogState {
                branch: final(self).branch,
                cursor: final(self).cursor,
                branch_open: false,
                ..*old(self)
            }),
    {
        if self.branch_cursor < self.branch_list.len() {
            let b = self.branch_list[self.branch_cursor].clone();
            self.branch = b;
            self.cursor = char_count(self.branch.as_str());
        }
        self.branch_open = false;
    }
}

// ── Settings dialog ─────────────────────────────────────────────────────────

/// The focused field of the settings dialog.
#[derive(Debug, Clone, Copy, PartialEq, Eq, Structural)]
pub enum SettingsField {
    DisplayName,
    Username,
    Token,
}

/// The settings field after `f`, wrapping around.
pub open spec fn settings_next(f: SettingsField) -> SettingsField {
    match f {
        SettingsField::DisplayName => SettingsField::Username,
        SettingsField::Username => SettingsField::Token,
        SettingsField::Token => SettingsField::DisplayName,
    }
}

/// The settings field before `f`, wrapping around.
pub open spec fn settings_prev(f: SettingsField) -> SettingsField {
    match f {
        SettingsField::DisplayName => SettingsField::Token,
        SettingsField::Username => SettingsField::DisplayName,
        SettingsField::Token => SettingsField::Username,
    }
}

impl SettingsField {
    /// The next field.
    pub fn next(&self) -> (r: Self)
        ensures
            r == settings_next(*self),
    {
        match self {
            SettingsField::DisplayName => SettingsField::Username,
            SettingsField::Username => SettingsField::Token,
            SettingsField::Token => SettingsField::DisplayName,
        }
    }

    /// The previous field.
    pub fn prev(&self) -> (r: Self)
        ensures
            r == settings_prev(*self),
    {
        match self {
            SettingsField::DisplayName => SettingsField::Token,
            SettingsField::Username => SettingsField::DisplayName,
            SettingsField::Token => SettingsField::Username,
        }
    }
}

/// Moving to the next settings field and back (or back and on) returns to
/// the field one started from, and three moves go all the way round.
pub proof fn lemma_settings_field_cycle(f: SettingsField)
    ensures
        settings_prev(settings_next(f)) == f,
        settings_next(settings_prev(f)) == f,
        settings_next(settings_next(settings_next(f))) == f,
{
}

/// The settings dialog. It holds the token, so it has no `Debug`.
pub struct SettingsDialogState {
    pub display_name: String,
    pub username: String,
    pub token: String,
    pub focused: SettingsField,
    pub cursor: usize,
    pub show_token: bool,
}

/// The text of the focused settings field.
pub open spec fn settings_active(s: SettingsDialogState) -> Seq<char> {
    match s.focused {
        SettingsField::DisplayName => s.display_name@,
        SettingsField::Username => s.username@,
        SettingsField::Token => s.token@,
    }
}

/// The focused settings field's string.
pub open spec fn settings_active_string(s: SettingsDialogState) -> String {
    match s.focused {
        SettingsField::DisplayName => s.display_name,
        SettingsField::Username => s.username,
        SettingsField::Token => s.token,
    }
}

/// The dialog after its focused field's text became `t`, all else equal.
pub open spec fn settings_active_set(s: SettingsDialogState, t: String) -> SettingsDialogState {
    match s.focused {
        SettingsField::DisplayName => SettingsDialogState { display_name: t, ..s },
        SettingsField::Username => SettingsDialogState { username: t, ..s },
        SettingsField::Token => SettingsDialogState { token: t, ..s },
    }
}

impl SettingsDialogState {
    /// A dialog with empty fields, the display name focused and the token
    /// hidden.
    pub fn new() -> (r: Self)
        ensures
            r.display_name@ == Seq::<char>::empty(),
            r.username@ == Seq::<char>::empty(),
            r.token@ == Seq::<char>::empty(),
            r.focused == SettingsField::DisplayName,
            r.cursor == 0,
            !r.show_token,
    {
        SettingsDialogState {
            display_name: String::new(),
            username: String::new(),
            token: String::new(),
            focused: SettingsField::DisplayName,
            cursor: 0,
            show_token: false,
        }
    }

    /// The text of the focused field.
    pub fn active_field_text(&self) -> (r: &str)
        ensures
            r@ == settings_active(*self),
    {
        match self.focused {
            SettingsField::DisplayName => self.display_name.as_str(),
            SettingsField::Username => self.username.as_str(),
            SettingsField::Token => self.token.as_str(),
        }
    }

    /// The focused field's text, to edit in place.
    pub fn active_field_text_mut(&mut self) -> (r: &mut String)
        ensures
            r@ == settings_active(*old(self)),
            *final(self) == settings_active_set(*old(self), *final(r)),
    {
        match self.focused {
            SettingsField::DisplayName => &mut self.display_name,
            SettingsField::Username => &mut self.username,
            SettingsField::Token => &mut self.token,
        }
    }

    /// Keeps the cursor within the focused field's text.
    pub fn clamp_cursor(&mut self)
        ensures
            final(self).cursor == if old(self).cursor > settings_active(*old(self)).len() {
                settings_active(*old(self)).len() as usize
            } else {
                old(self).cursor
            },
            *final(self) == (SettingsDialogState { cursor: final(self).cursor, ..*old(self) }),
    {
        let len = char_count(self.active_field_text());
        if self.cursor > len {
            self.cursor = len;
        }
    }

    /// Types `c` at the cursor and moves the cursor past it.
    pub fn type_char(&mut self, c: char)
        requires
            old(self).cursor < usize::MAX,
        ensures
            settings_active(*final(self)) == settings_active(*old(self)).insert(
                insert_pos(settings_active(*old(self)).len(), old(self).cursor),
                c,
            ),
            *final(self) == (SettingsDialogState {
                cursor: (old(self).cursor + 1) as usize,
                ..settings_active_set(*old(self), settings_active_string(*final(self)))
            }),
    {
        let cur = self.cursor;
        let text = self.active_field_text_mut();
        insert_char_at(text, cur, c);
        self.cursor = self.cursor + 1;
    }

    /// Deletes the character before the cursor (the first one when the
    /// cursor is past the end) and moves the cursor back; nothing at the
    /// start.
    pub fn backspace(&mut self)
        requires
            old(self).cursor > 0 ==> settings_active(*old(self)).len() > 0,
        ensures
            old(self).cursor == 0 ==> *final(self) == *old(self),
            old(self).cursor > 0 ==> settings_active(*final(self)) == settings_active(*old(self)).remove(
                backspace_pos(settings_active(*old(self)).len(), old(self).cursor),
            ) && *final(self) == (SettingsDialogState {
                cursor: (old(self).cursor - 1) as usize,
                ..settings_active_set(*old(self), settings_active_string(*final(self)))
            }),
    {
        if self.cursor > 0 {
            let cur = self.cursor;
            let len = char_count(self.active_field_text());
            let at = if cur - 1 < len {
                cur - 1
            } else {
                0
            };
            let text = self.active_field_text_mut();
            remove_char_at(text, at);
            self.cursor = self.cursor - 1;
        }
    }
}

/// Typing a character in the push dialog and deleting it again gives back
/// the dialog as it was: the focused field's text, the cursor and every
/// other field (when the cursor was within the text, and below the largest
/// `usize`, as typing asks).
pub proof fn lemma_push_type_then_backspace(s0: PushDialogState, s1: PushDialogState, s2: PushDialogState, c: char)
    requires
        s0.cursor <= push_active(s0).len(),
        s0.cursor < usize::MAX,
        push_active(s1) == push_active(s0).insert(insert_pos(push_active(s0).len(), s0.cursor), c),
        s1 == (PushDialogState { cursor: (s0.cursor + 1) as usize, ..push_active_set(s0, push_active_string(s1)) }),
        push_active(s2) == push_active(s1).remove(backspace_pos(push_active(s1).len(), s1.cursor)),
        s2 == (PushDialogState { cursor: (s1.cursor - 1) as usize, ..push_active_set(s1, push_active_string(s2)) }),
    ensures
        push_active(s2) == push_active(s0),
        s2.cursor == s0.cursor,
        s2.focused == s0.focused,
        s2 == push_active_set(s0, push_active_string(s2)),
{
    lemma_type_then_backspace(push_active(s0), s0.cursor, c);
}

/// Typing a character in the settings dialog and deleting it again gives
/// back the dialog as it was (when the cursor was within the text, and
/// below the largest `usize`, as typing asks).
pub proof fn lemma_settings_type_then_backspace(s0: SettingsDialogState, s1: SettingsDialogState, s2: SettingsDialogState, c: char)
    requires
        s0.cursor <= settings_active(s0).len(),
        s0.cursor < usize::MAX,
        settings_active(s1) == settings_active(s0).insert(insert_pos(settings_active(s0).len(), s0.cursor), c),
        s1 == (SettingsDialogState { cursor: (s0.cursor + 1) as usize, ..settings_active_set(s0, settings_active_string(s1)) }),
        settings_active(s2) == settings_active(s1).remove(backspace_pos(settings_active(s1).len(), s1.cursor)),
        s2 == (SettingsDialogState { cursor: (s1.cursor - 1) as usize, ..settings_active_set(s1, settings_active_string(s2)) }),
    ensures
        settings_active(s2) == settings_active(s0),
        s2.cursor == s0.cursor,
        s2 == settings_active_set(s0, settings_active_string(s2)),
{
    lemma_type_then_backspace(settings_active(s0), s0.cursor, c);
}

/// Typing a character and deleting it again gives back the text, when the
/// cursor was within it.
pub proof fn lemma_type_then_backspace(text: Seq<char>, cursor: usize, c: char)
    requires
        cursor <= text.len(),
        cursor < usize::MAX,
    ensures
        text.insert(insert_pos(text.len(), cursor), c).remove(
            backspace_pos(text.insert(insert_pos(text.len(), cursor), c).len(), (cursor + 1) as usize),
        ) == text,
{
    assert(text.insert(cursor as int, c).remove(cursor as int) =~= text);
}

// ── SSH setup ───────────────────────────────────────────────────────────────

/// The steps of the SSH setup screen.
#[derive(Debug, PartialEq, Eq)]
pub enum SshSetupStep {
    Detecting,
    NeedGenerate,
    Generating,
    ShowPubkey { pubkey: String, auto_added: bool },
    Testing,
    Connected { username: String },
    Error(String),
}

impl Clone for SshSetupStep {
    fn clone(&self) -> (r: Self)
        ensures
            r == *self,
    {
        match self {
            SshSetupStep::Detecting => SshSetupStep::Detecting,
            SshSetupStep::NeedGenerate => SshSetupStep::NeedGenerate,
            SshSetupStep::Generating => SshSetupStep::Generating,
            SshSetupStep::ShowPubkey { pubkey, auto_added } => SshSetupStep::ShowPubkey {
                pubkey: pubkey.clone(),
                auto_added: *auto_added,
            },
            SshSetupStep::Testing => SshSetupStep::Testing,
            SshSetupStep::Connected { username } => SshSetupStep::Connected {
                username: username.clone(),
            },
            SshSetupStep::Error(e) => SshSetupStep::Error(e.clone()),
        }
    }
}

} // verus!
