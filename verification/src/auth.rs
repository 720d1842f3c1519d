//! SSH keys, personal access tokens and GitHub URLs: what the detected state
//! is, how URLs convert between HTTPS and SSH, and how the answers of `ssh`,
//! `git` and GitHub's API are read.
use vstd::prelude::*;
use crate::git::{
    args_view, clean_url_text, command, origin_push_args, strs_of, GitCommand, GitRepo,
};
use crate::text::{
    contains, ends_with, ends_with_seq, find, find_seq, from_chars, index_or_len, index_or_len_in,
    occurs_at, occurs_at_exec, push_decimal, push_seq_range, push_str, starts_with, str_contains,
    string_of_range, to_chars, trim, trim_bounds, trim_end_char, trim_end_char_bound, decimal,
};

verus! {

// ── SSH key files ───────────────────────────────────────────────────────────

/// The key names looked for in `~/.ssh`, most preferred first.
pub open spec fn key_names() -> Seq<Seq<char>> {
    seq!["id_ed25519"@, "id_rsa"@, "id_ecdsa"@]
}

/// The key names looked for in `~/.ssh`, most preferred first.
pub fn ssh_key_names() -> (r: Vec<String>)
    ensures
        crate::git::strs_view(r@) == key_names(),
{
    let mut v: Vec<String> = Vec::new();
    v.push(String::from_str("id_ed25519"));
    v.push(String::from_str("id_rsa"));
    v.push(String::from_str("id_ecdsa"));
    proof { assert(crate::git::strs_view(v@) =~= key_names()); }
    v
}

/// Which key pair is used: `present[k]` tells whether both the private
/// and the public file of the `k`-th key name exist; the first such
/// position, or none.
pub fn choose_key_pair(present: &[bool]) -> (r: Option<usize>)
    ensures
        match r {
            Some(k) => k < present@.len() && present@[k as int]
                && forall|j: int| 0 <= j < k ==> !present@[j],
            None => forall|j: int| 0 <= j < present@.len() ==> !present@[j],
        },
{
    let mut k: usize = 0;
    while k < present.len()
        invariant
            k <= present@.len(),
            forall|j: int| 0 <= j < k ==> !present@[j],
        decreases present@.len() - k,
    {
        if present[k] {
            return Some(k);
        }
        k = k + 1;
    }
    None
}

/// Why a new key is not generated: one already exists at `priv_path`
/// (keys are never overwritten); nothing when there is none.
pub fn key_exists_refusal(priv_exists: bool, priv_path: &str) -> (r: Option<String>)
    ensures
        priv_exists <==> r is Some,
        r matches Some(e) ==> e@ == "SSH key already exists at "@ + priv_path@,
{
    if priv_exists {
        let mut e = String::from_str("SSH key already exists at ");
        push_str(&mut e, priv_path);
        Some(e)
    } else {
        None
    }
}

// ── SSH and token states ────────────────────────────────────────────────────

/// What was found of the SSH key.
#[derive(Debug, PartialEq, Eq)]
pub enum SshStatus {
    /// A key exists and GitHub accepts it.
    Ready { key_path: String, pubkey: String },
    /// A key exists but GitHub does not accept it yet.
    PubkeyPending { key_path: String, pubkey: String },
    /// No key was found.
    NoKey,
}

impl Clone for SshStatus {
    fn clone(&self) -> (r: Self)
        ensures
            r == *self,
    {
        match self {
            SshStatus::Ready { key_path, pubkey } => SshStatus::Ready {
                key_path: key_path.clone(),
                pubkey: pubkey.clone(),
            },
            SshStatus::PubkeyPending { key_path, pubkey } => SshStatus::PubkeyPending {
                key_path: key_path.clone(),
                pubkey: pubkey.clone(),
            },
            SshStatus::NoKey => SshStatus::NoKey,
        }
    }
}

/// What is known of the stored token.
#[derive(Debug, PartialEq, Eq)]
pub enum PatStatus {
    Valid { username: String },
    Invalid,
    NotSet,
}

/// `p` with the extension of its last component removed, as
/// `Path::with_extension("")` gives it.
pub uninterp spec fn path_without_extension(p: Seq<char>) -> Seq<char>;

/// `Path::with_extension("")`, converted to a `String`.
#[verifier::external_body]
fn without_extension(p: &str) -> (r: String)
    ensures
        r@ == path_without_extension(p@),
{
    std::path::Path::new(p).with_extension("").to_string_lossy().to_string()
}

/// The SSH state from what was found: the public key's path (none when no
/// key pair exists), the public key file's content when it could be read,
/// and whether GitHub accepted the key. The private key is the public key's
/// path without its extension, and the key text is the file's trimmed
/// content (empty when it could not be read).
pub fn detect_ssh_status(pub_path: Option<&str>, pub_file: Option<&str>, accepted: bool) -> (r:
    SshStatus)
    ensures
        match pub_path {
            None => r == SshStatus::NoKey,
            Some(p) => {
                let key = match pub_file {
                    Some(c) => trim(c@),
                    None => Seq::<char>::empty(),
                };
                if accepted {
                    r matches SshStatus::Ready { key_path, pubkey } && key_path@
                        == path_without_extension(p@) && pubkey@ == key
                } else {
                    r matches SshStatus::PubkeyPending { key_path, pubkey } && key_path@
                        == path_without_extension(p@) && pubkey@ == key
                }
            },
        },
{
    match pub_path {
        None => SshStatus::NoKey,
        Some(p) => {
            let pubkey = match pub_file {
                Some(c) => crate::text::trim_str(c),
                None => String::new(),
            };
            let key_path = without_extension(p);
            if accepted {
                SshStatus::Ready { key_path, pubkey }
            } else {
                SshStatus::PubkeyPending { key_path, pubkey }
            }
        },
    }
}

/// The SSH state and the user the token belongs to (none when no token is
/// stored or it was not accepted).
#[derive(Debug)]
pub struct AuthStatus {
    pub ssh: SshStatus,
    pub pat_user: Option<String>,
}

/// The label for an SSH state.
pub open spec fn ssh_label_text(s: SshStatus) -> Seq<char> {
    match s {
        SshStatus::Ready { .. } => "SSH ✅ connected"@,
        SshStatus::PubkeyPending { .. } => "SSH ⚠ key not added to GitHub"@,
        SshStatus::NoKey => "SSH ❌ no key"@,
    }
}

impl AuthStatus {
    /// Whether GitHub accepts the SSH key.
    pub fn ssh_ready(&self) -> (r: bool)
        ensures
            r == (self.ssh is Ready),
    {
        match self.ssh {
            SshStatus::Ready { .. } => true,
            _ => false,
        }
    }

    /// The label of the SSH state.
    pub fn ssh_label(&self) -> (r: &'static str)
        ensures
            r@ == ssh_label_text(self.ssh),
    {
        match &self.ssh {
            SshStatus::Ready { .. } => "SSH ✅ connected",
            SshStatus::PubkeyPending { .. } => "SSH ⚠ key not added to GitHub",
            SshStatus::NoKey => "SSH ❌ no key",
        }
    }

    /// The label of the token state: `@user` when a user is known.
    pub fn pat_label(&self) -> (r: String)
        ensures
            r@ == match self.pat_user {
                Some(u) => "API ✅ @"@ + u@,
                None => "API ○ not connected"@,
            },
    {
        match &self.pat_user {
            Some(u) => {
                let mut s = String::from_str("API ✅ @");
                push_str(&mut s, u.as_str());
                s
            },
            None => String::from_str("API ○ not connected"),
        }
    }
}

/// The combined state from the SSH state and the user that the token check
/// gave (an error or no token leaves the user unknown).
pub fn detect_auth_status(ssh: SshStatus, pat: Option<Result<String, String>>) -> (r: AuthStatus)
    ensures
        r.ssh == ssh,
        r.pat_user == match pat {
            Some(Ok(u)) => Some(u),
            _ => None,
        },
{
    let pat_user = match pat {
        Some(Ok(u)) => Some(u),
        _ => None,
    };
    AuthStatus { ssh, pat_user }
}

// ── URLs ────────────────────────────────────────────────────────────────────

/// `s`, ending in `.git`.
pub open spec fn git_suffixed(s: Seq<char>) -> Seq<char> {
    if ends_with(s, ".git"@) {
        s
    } else {
        s + ".git"@
    }
}

/// The SSH form of a GitHub URL: an SSH URL and an `https://github.com/`
/// URL both become `git@github.com:owner/repo.git`; other URLs stay as they
/// are (without surrounding whitespace, trailing slashes or credentials).
pub open spec fn ssh_url_text(url: Seq<char>) -> Seq<char> {
    let u = clean_url_text(trim_end_char(trim(url), '/'));
    if starts_with(u, "git@github.com:"@) {
        git_suffixed(u)
    } else if starts_with(u, "https://github.com/"@) {
        "git@github.com:"@ + git_suffixed(u.skip(19))
    } else {
        u
    }
}

/// `s` with `.git` appended unless it already ends with it.
pub fn ensure_git_suffix(s: &str) -> (r: String)
    ensures
        r@ == git_suffixed(s@),
{
    let cs = to_chars(s);
    let suf = to_chars(".git");
    if ends_with_seq(cs.as_slice(), suf.as_slice()) {
        from_chars(cs.as_slice())
    } else {
        let mut r = from_chars(cs.as_slice());
        push_str(&mut r, ".git");
        r
    }
}

/// The SSH URL of any GitHub URL (see `ssh_url_text`).
pub fn to_ssh_url(url: &str) -> (r: String)
    ensures
        r@ == ssh_url_text(url@),
{
    let cs = to_chars(url);
    let (a, b) = trim_bounds(cs.as_slice(), 0, cs.len());
    let e = trim_end_char_bound(cs.as_slice(), a, b, '/');
    proof {
        assert(cs@.subrange(0, cs@.len() as int) =~= cs@);
    }
    let trimmed = string_of_range(cs.as_slice(), a, e);
    let u = GitRepo::clean_url(trimmed.as_str());
    let uc = to_chars(u.as_str());
    let ssh_pre = to_chars("git@github.com:");
    let https_pre = to_chars("https://github.com/");
    proof {
        reveal_strlit("https://github.com/");
    }
    if occurs_at_exec(uc.as_slice(), ssh_pre.as_slice(), 0) {
        return ensure_git_suffix(u.as_str());
    }
    if occurs_at_exec(uc.as_slice(), https_pre.as_slice(), 0) {
        let rest = string_of_range(uc.as_slice(), 19, uc.len());
        proof { assert(uc@.skip(19) =~= uc@.subrange(19, uc@.len() as int)); }
        let mut r = String::from_str("git@github.com:");
        let tail = ensure_git_suffix(rest.as_str());
        push_str(&mut r, tail.as_str());
        return r;
    }
    u
}

/// `s` with every trailing copy of `p` removed (`str::trim_end_matches`
/// with a string pattern).
pub open spec fn trim_end_str(s: Seq<char>, p: Seq<char>) -> Seq<char>
    decreases s.len(),
{
    if p.len() > 0 && ends_with(s, p) {
        trim_end_str(s.take(s.len() - p.len()), p)
    } else {
        s
    }
}

/// `str::trim_end_matches` with a string pattern.
pub fn trim_end_matches_str(s: &str, p: &str) -> (r: String)
    ensures
        r@ == trim_end_str(s@, p@),
{
    let cs = to_chars(s);
    let pc = to_chars(p);
    let n = pc.len();
    let mut e = cs.len();
    proof { assert(cs@.subrange(0, cs@.len() as int) =~= cs@); }
    while n > 0 && e >= n && occurs_at_exec(cs.as_slice(), pc.as_slice(), e - n)
        invariant
            e <= cs@.len(),
            n == pc@.len(),
            trim_end_str(cs@, pc@) == trim_end_str(cs@.subrange(0, e as int), pc@),
        decreases e,
    {
        proof {
            let u = cs@.subrange(0, e as int);
            assert(u.skip(u.len() - n) =~= cs@.subrange(e - n, e as int));
            assert(u.take(u.len() - n) =~= cs@.subrange(0, e - n));
        }
        e = e - n;
    }
    proof {
        let u = cs@.subrange(0, e as int);
        if n > 0 && e >= n {
            assert(u.skip(u.len() - n) =~= cs@.subrange(e - n, e as int));
        }
        assert(trim_end_str(u, pc@) == u);
    }
    string_of_range(cs.as_slice(), 0, e)
}

/// The owner and repository of a GitHub URL: the first two `/`-separated
/// parts after `git@github.com:` or `https://github.com/`, once surrounding
/// whitespace, trailing slashes and trailing `.git` are removed.
pub open spec fn github_owner_repo(url: Seq<char>) -> Option<(Seq<char>, Seq<char>)> {
    let u = trim_end_str(trim_end_char(trim(url), '/'), ".git"@);
    let path = if starts_with(u, "git@github.com:"@) {
        Some(u.skip(15))
    } else if starts_with(u, "https://github.com/"@) {
        Some(u.skip(19))
    } else {
        None
    };
    match path {
        None => None,
        Some(p) => {
            let k = index_or_len(p, '/');
            if k < p.len() {
                let rest = p.skip(k + 1);
                Some((p.take(k), rest.take(index_or_len(rest, '/'))))
            } else {
                None
            }
        },
    }
}

/// Extracts `(owner, repo)` from a GitHub URL (see `github_owner_repo`).
pub fn parse_github_url(url: &str) -> (r: Option<(String, String)>)
    ensures
        match github_owner_repo(url@) {
            Some((o, n)) => r matches Some((a, b)) && a@ == o && b@ == n,
            None => r is None,
        },
{
    let cs = to_chars(url);
    let (a, b) = trim_bounds(cs.as_slice(), 0, cs.len());
    let e0 = trim_end_char_bound(cs.as_slice(), a, b, '/');
    proof {
        assert(cs@.subrange(0, cs@.len() as int) =~= cs@);
    }
    let suf = to_chars(".git");
    let mut e = e0;
    proof { reveal_strlit(".git"); }
    while e - a >= 4 && occurs_at_exec(cs.as_slice(), suf.as_slice(), e - 4)
        invariant
            a <= e <= e0 <= cs@.len(),
            suf@ == ".git"@,
            suf@.len() == 4,
            trim_end_str(cs@.subrange(a as int, e0 as int), ".git"@) == trim_end_str(
                cs@.subrange(a as int, e as int),
                ".git"@,
            ),
        decreases e,
    {
        proof {
            let s = cs@.subrange(a as int, e as int);
            assert(s.skip(s.len() - 4) =~= cs@.subrange(e - 4, e as int));
            assert(s.take(s.len() - 4) =~= cs@.subrange(a as int, e - 4));
        }
        e = e - 4;
    }
    let ghost u = cs@.subrange(a as int, e as int);
    proof {
        if e - a >= 4 {
            assert(u.skip(u.len() - 4) =~= cs@.subrange(e - 4, e as int));
        }
        assert(trim_end_str(u, ".git"@) == u);
    }
    let ssh_pre = to_chars("git@github.com:");
    let https_pre = to_chars("https://github.com/");
    proof {
        reveal_strlit("git@github.com:");
        reveal_strlit("https://github.com/");
    }
    let uc = from_and_chars(cs.as_slice(), a, e);
    let start: usize = if occurs_at_exec(uc.as_slice(), ssh_pre.as_slice(), 0) {
        a + 15
    } else if occurs_at_exec(uc.as_slice(), https_pre.as_slice(), 0) {
        a + 19
    } else {
        return None;
    };
    let ghost p = cs@.subrange(start as int, e as int);
    proof {
        assert(u.skip(start - a) =~= p);
    }
    let k = index_or_len_in(cs.as_slice(), '/', start, e);
    if k == e {
        return None;
    }
    let k2 = index_or_len_in(cs.as_slice(), '/', k + 1, e);
    proof {
        let rest = p.skip(k - start + 1);
        assert(rest =~= cs@.subrange(k + 1, e as int));
        assert(p.take(k - start) =~= cs@.subrange(start as int, k as int));
        assert(rest.take(k2 - (k + 1)) =~= cs@.subrange(k + 1, k2 as int));
    }
    Some((string_of_range(cs.as_slice(), start, k), string_of_range(cs.as_slice(), k + 1, k2)))
}

/// The characters `cs[a..b]` as a vector.
fn from_and_chars(cs: &[char], a: usize, b: usize) -> (r: Vec<char>)
    requires
        a <= b <= cs@.len(),
    ensures
        r@ == cs@.subrange(a as int, b as int),
{
    let mut v: Vec<char> = Vec::new();
    let mut i = a;
    while i < b
        invariant
            a <= i <= b <= cs@.len(),
            v@ == cs@.subrange(a as int, i as int),
        decreases b - i,
    {
        v.push(cs[i]);
        proof {
            assert(cs@.subrange(a as int, i + 1) =~= cs@.subrange(a as int, i as int).push(
                cs@[i as int],
            ));
        }
        i = i + 1;
    }
    v
}


// ── Reading what ssh printed ────────────────────────────────────────────────

/// The part of `s` before the first occurrence of `p` (all of `s` when `p`
/// does not occur).
pub open spec fn before_first(s: Seq<char>, p: Seq<char>) -> Seq<char> {
    match find(s, p) {
        Some(i) => s.take(i),
        None => s,
    }
}

/// The user named in GitHub's greeting `Hi <user>! ...`: what follows the
/// first `"Hi "`, up to the next `"Hi "` and then up to the first `'!'`,
/// trimmed.
pub open spec fn greeting_user(out: Seq<char>) -> Seq<char> {
    let i = find(out, "Hi "@).unwrap();
    let seg = before_first(out.skip(i + 3), "Hi "@);
    trim(seg.take(index_or_len(seg, '!')))
}

/// What `ssh -T git@github.com` printed (standard output then standard
/// error) says: the user when GitHub greeted, or why the key was refused.
pub open spec fn ssh_test_outcome(out: Seq<char>) -> Result<Seq<char>, Seq<char>> {
    if contains(out, "Hi "@) && contains(out, "!"@) {
        Ok(greeting_user(out))
    } else if contains(out, "Permission denied"@) {
        Err("SSH key not added to GitHub yet"@)
    } else if contains(out, "Could not resolve hostname"@) {
        Err("No internet connection"@)
    } else {
        Err("SSH auth failed: "@ + trim(out))
    }
}

/// Reads the answer of `ssh -T git@github.com` (see `ssh_test_outcome`).
pub fn test_ssh_github(out: &str) -> (r: Result<String, String>)
    ensures
        match ssh_test_outcome(out@) {
            Ok(u) => r matches Ok(x) && x@ == u,
            Err(e) => r matches Err(x) && x@ == e,
        },
{
    let cs = to_chars(out);
    let hi = to_chars("Hi ");
    proof {
        reveal_strlit("Hi ");
        assert(hi@.len() == 3);
    }
    if str_contains(out, "Hi ") && str_contains(out, "!") {
        let fi = find_seq(cs.as_slice(), hi.as_slice());
        let i = match fi {
            Some(i) => i,
            None => {
                return Err(String::new());
            },
        };
        let n = cs.len();
        assert(i + 3 <= n);
        let rest = from_and_chars(cs.as_slice(), i + 3, n);
        proof { assert(rest@ =~= cs@.skip(i + 3)); }
        let seg_end = match find_seq(rest.as_slice(), hi.as_slice()) {
            Some(j) => j,
            None => rest.len(),
        };
        let ghost seg = before_first(cs@.skip(i + 3), "Hi "@);
        proof {
            assert(seg =~= rest@.subrange(0, seg_end as int));
        }
        let k = index_or_len_in(rest.as_slice(), '!', 0, seg_end);
        let (a, b) = trim_bounds(rest.as_slice(), 0, k);
        proof {
            assert(seg.take(k as int) =~= rest@.subrange(0, k as int));
        }
        return Ok(string_of_range(rest.as_slice(), a, b));
    }
    if str_contains(out, "Permission denied") {
        return Err(String::from_str("SSH key not added to GitHub yet"));
    }
    if str_contains(out, "Could not resolve hostname") {
        return Err(String::from_str("No internet connection"));
    }
    let mut e = String::from_str("SSH auth failed: ");
    let t = crate::text::trim_str(out);
    push_str(&mut e, t.as_str());
    Err(e)
}

// ── Reading GitHub's answer to a token ──────────────────────────────────────

/// What GitHub's `/user` answer says: the text of the parse error when the
/// body is not JSON, `Ok(None)` when it is JSON without a string `login`,
/// else the login.
pub uninterp spec fn json_login(body: Seq<char>) -> Result<Option<Seq<char>>, Seq<char>>;

/// Reads the `login` field of a JSON body (`serde_json::from_str` into a
/// `serde_json::Value`, then `value["login"].as_str()`), or gives the
/// parse error as text (its `Display`).
#[verifier::external_body]
pub(crate) fn login_of(body: &str) -> (r: Result<Option<String>, String>)
    ensures
        match json_login(body@) {
            Err(t) => r matches Err(x) && x@ == t,
            Ok(None) => r matches Ok(None),
            Ok(Some(l)) => r matches Ok(Some(x)) && x@ == l,
        },
{
    match serde_json::from_str::<serde_json::Value>(body) {
        Ok(v) => Ok(v["login"].as_str().map(|s| s.to_string())),
        Err(e) => Err(e.to_string()),
    }
}

/// The user that a successful answer names (`user` when it names none).
pub open spec fn answer_user(body: Seq<char>) -> Option<Seq<char>> {
    match json_login(body) {
        Err(_) => None,
        Ok(None) => Some("user"@),
        Ok(Some(l)) => Some(l),
    }
}

/// The error of an answer whose body is not JSON, as the HTTP client
/// words it: `error decoding response body: ` and the parse error.
pub open spec fn decode_error_text(body: Seq<char>) -> Seq<char> {
    match json_login(body) {
        Err(t) => "error decoding response body: "@ + t,
        Ok(_) => "error decoding response body"@,
    }
}

/// The outcome of checking a token (the check that runs before the
/// interface starts): the user on status 200, else why the token failed.
/// `status_text` is the status as HTTP writes it (`404 Not Found`).
pub open spec fn blocking_pat_outcome(status: u16, status_text: Seq<char>, body: Seq<char>) -> Result<
    Seq<char>,
    Seq<char>,
> {
    if status == 200 {
        match answer_user(body) {
            Some(u) => Ok(u),
            None => Err("Failed to parse GitHub user response"@),
        }
    } else if status == 401 {
        Err("Invalid token — check it and try again"@)
    } else if status == 403 {
        Err("Token has no API access — regenerate with 'repo' scope"@)
    } else {
        Err("GitHub API returned "@ + status_text)
    }
}

/// The user of an answer, or the error of a body that is not JSON, as
/// `decode_error_text` words it.
fn user_from_body(body: &str) -> (r: Result<String, String>)
    ensures
        match answer_user(body@) {
            Some(u) => r matches Ok(x) && x@ == u,
            None => r matches Err(x) && x@ == decode_error_text(body@),
        },
{
    match login_of(body) {
        Err(t) => {
            let mut e = String::from_str("error decoding response body: ");
            push_str(&mut e, t.as_str());
            proof { reveal_strlit("error decoding response body: "); }
            Err(e)
        },
        Ok(None) => Ok(String::from_str("user")),
        Ok(Some(l)) => Ok(l),
    }
}

fn with_status(prefix: &str, status_text: &str) -> (r: String)
    ensures
        r@ == prefix@ + status_text@,
{
    let mut e = String::from_str(prefix);
    push_str(&mut e, status_text);
    e
}

/// Reads GitHub's answer to a token check (see `blocking_pat_outcome`).
pub fn validate_pat_blocking(status: u16, status_text: &str, body: &str) -> (r: Result<
    String,
    String,
>)
    ensures
        match blocking_pat_outcome(status, status_text@, body@) {
            Ok(u) => r matches Ok(x) && x@ == u,
            Err(e) => r matches Err(x) && x@ == e,
        },
{
    if status == 200 {
        match user_from_body(body) {
            Ok(u) => Ok(u),
            Err(_) => Err(String::from_str("Failed to parse GitHub user response")),
        }
    } else if status == 401 {
        Err(String::from_str("Invalid token — check it and try again"))
    } else if status == 403 {
        Err(String::from_str("Token has no API access — regenerate with 'repo' scope"))
    } else {
        Err(with_status("GitHub API returned ", status_text))
    }
}

/// The outcome of checking a token from the interface: the user on status
/// 200 (a body that is not JSON is an error of its own), else why it failed.
pub open spec fn pat_outcome(status: u16, status_text: Seq<char>, body: Seq<char>) -> Result<
    Seq<char>,
    Seq<char>,
> {
    if status == 200 {
        match answer_user(body) {
            Some(u) => Ok(u),
            None => Err(decode_error_text(body)),
        }
    } else if status == 401 {
        Err("Invalid token"@)
    } else if status == 403 {
        Err("Token lacks permissions"@)
    } else {
        Err("GitHub returned "@ + status_text)
    }
}

/// Reads GitHub's answer to a token check (see `pat_outcome`).
pub fn validate_pat(status: u16, status_text: &str, body: &str) -> (r: Result<String, String>)
    ensures
        match pat_outcome(status, status_text@, body@) {
            Ok(u) => r matches Ok(x) && x@ == u,
            Err(e) => r matches Err(x) && x@ == e,
        },
{
    if status == 200 {
        user_from_body(body)
    } else if status == 401 {
        Err(String::from_str("Invalid token"))
    } else if status == 403 {
        Err(String::from_str("Token lacks permissions"))
    } else {
        Err(with_status("GitHub returned ", status_text))
    }
}

/// The outcome of the token check of the sign-in screen: the user on any
/// success status, `Invalid token` on 401, else the status.
pub open spec fn sign_in_outcome(status: u16, status_text: Seq<char>, body: Seq<char>) -> Result<
    Seq<char>,
    Seq<char>,
> {
    if 200 <= status <= 299 {
        match answer_user(body) {
            Some(u) => Ok(u),
            None => Err(decode_error_text(body)),
        }
    } else if status == 401 {
        Err("Invalid token"@)
    } else {
        Err("GitHub returned: "@ + status_text)
    }
}

/// Reads GitHub's answer to the sign-in screen's token (see `sign_in_outcome`).
pub fn validate_github_token(status: u16, status_text: &str, body: &str) -> (r: Result<
    String,
    String,
>)
    ensures
        match sign_in_outcome(status, status_text@, body@) {
            Ok(u) => r matches Ok(x) && x@ == u,
            Err(e) => r matches Err(x) && x@ == e,
        },
{
    if 200 <= status && status <= 299 {
        user_from_body(body)
    } else if status == 401 {
        Err(String::from_str("Invalid token"))
    } else {
        Err(with_status("GitHub returned: ", status_text))
    }
}

// ── Cloning, pushing and pulling over SSH ───────────────────────────────────

/// The command that clones a repository over SSH, and its SSH URL.
pub fn clone_via_ssh(url: &str) -> (r: (String, GitCommand))
    ensures
        r.0@ == ssh_url_text(url@),
        args_view(r.1) == seq!["clone"@, r.0@],
{
    let ssh = to_ssh_url(url);
    let s = ssh.as_str();
    let c = command(&["clone", s]);
    proof { assert(strs_of(seq!["clone", s]) =~= seq!["clone"@, ssh@]); }
    (ssh, c)
}

/// Why a clone over SSH failed, from what git printed.
pub open spec fn clone_error_text(stderr: Seq<char>, ssh_url: Seq<char>) -> Seq<char> {
    let e = trim(stderr);
    if contains(e, "Permission denied"@) {
        "SSH key not authorised on GitHub.\nAdd your public key at: github.com/settings/keys"@
    } else if contains(e, "not found"@) || contains(e, "does not exist"@) {
        "Repository not found: "@ + ssh_url
    } else {
        e
    }
}

/// Reads why a clone over SSH failed (see `clone_error_text`).
pub fn clone_error(stderr: &str, ssh_url: &str) -> (r: String)
    ensures
        r@ == clone_error_text(stderr@, ssh_url@),
{
    let e = crate::text::trim_str(stderr);
    if str_contains(e.as_str(), "Permission denied") {
        String::from_str(
            "SSH key not authorised on GitHub.\nAdd your public key at: github.com/settings/keys",
        )
    } else if str_contains(e.as_str(), "not found") || str_contains(e.as_str(), "does not exist") {
        with_status("Repository not found: ", ssh_url)
    } else {
        e
    }
}

/// The command that pushes `branch` to `origin` over SSH.
pub fn push_via_ssh(branch: &str, force: bool) -> (r: GitCommand)
    ensures
        args_view(r) == origin_push_args(branch@, force),
{
    if force {
        let c = command(&["push", "--set-upstream", "origin", branch, "--force"]);
        proof {
            assert(strs_of(seq!["push", "--set-upstream", "origin", branch, "--force"])
                =~= origin_push_args(branch@, force));
        }
        c
    } else {
        let c = command(&["push", "--set-upstream", "origin", branch]);
        proof {
            assert(strs_of(seq!["push", "--set-upstream", "origin", branch]) =~= origin_push_args(
                branch@,
                force,
            ));
        }
        c
    }
}

/// Why a push over SSH failed, from what git printed.
pub open spec fn ssh_push_error_text(stderr: Seq<char>) -> Seq<char> {
    let e = trim(stderr);
    if contains(e, "Permission denied"@) {
        "SSH push denied — add your key at github.com/settings/keys"@
    } else if contains(e, "does not match any"@) || contains(e, "src refspec"@) {
        "No commits to push — commit something first"@
    } else {
        e
    }
}

/// Reads why a push over SSH failed (see `ssh_push_error_text`).
pub fn ssh_push_error(stderr: &str) -> (r: String)
    ensures
        r@ == ssh_push_error_text(stderr@),
{
    let e = crate::text::trim_str(stderr);
    if str_contains(e.as_str(), "Permission denied") {
        String::from_str("SSH push denied — add your key at github.com/settings/keys")
    } else if str_contains(e.as_str(), "does not match any") || str_contains(
        e.as_str(),
        "src refspec",
    ) {
        String::from_str("No commits to push — commit something first")
    } else {
        e
    }
}

/// The command that turns an HTTPS `origin` into its SSH form, given what
/// `git remote get-url origin` printed; nothing for any other URL.
pub fn ensure_remote_is_ssh(origin_output: &str) -> (r: Option<GitCommand>)
    ensures
        starts_with(trim(origin_output@), "https://"@) ==> (r matches Some(c) && args_view(c)
            == seq!["remote"@, "set-url"@, "origin"@, ssh_url_text(trim(origin_output@))]),
        !starts_with(trim(origin_output@), "https://"@) ==> r is None,
{
    let url = crate::text::trim_str(origin_output);
    if crate::text::str_starts_with(url.as_str(), "https://") {
        let ssh = to_ssh_url(url.as_str());
        let s = ssh.as_str();
        let c = command(&["remote", "set-url", "origin", s]);
        proof {
            assert(strs_of(seq!["remote", "set-url", "origin", s]) =~= seq![
                "remote"@,
                "set-url"@,
                "origin"@,
                ssh@,
            ]);
        }
        Some(c)
    } else {
        None
    }
}

/// The SSH URL of a GitHub repository.
pub open spec fn github_ssh_url(owner: Seq<char>, repo: Seq<char>) -> Seq<char> {
    "git@github.com:"@ + owner + "/"@ + repo + ".git"@
}

/// The command that points `origin` at the repository's SSH URL: `set-url`
/// when `origin` exists, `add` when it does not.
pub fn set_remote_ssh(owner: &str, repo: &str, has_remote: bool) -> (r: GitCommand)
    ensures
        has_remote ==> args_view(r) == seq!["remote"@, "set-url"@, "origin"@, github_ssh_url(owner@, repo@)],
        !has_remote ==> args_view(r) == seq!["remote"@, "add"@, "origin"@, github_ssh_url(owner@, repo@)],
{
    let mut url = String::from_str("git@github.com:");
    push_str(&mut url, owner);
    push_str(&mut url, "/");
    push_str(&mut url, repo);
    push_str(&mut url, ".git");
    let us = url.as_str();
    if has_remote {
        let c = command(&["remote", "set-url", "origin", us]);
        proof {
            assert(strs_of(seq!["remote", "set-url", "origin", us]) =~= seq![
                "remote"@,
                "set-url"@,
                "origin"@,
                url@,
            ]);
        }
        c
    } else {
        let c = command(&["remote", "add", "origin", us]);
        proof {
            assert(strs_of(seq!["remote", "add", "origin", us]) =~= seq![
                "remote"@,
                "add"@,
                "origin"@,
                url@,
            ]);
        }
        c
    }
}

} // verus!
