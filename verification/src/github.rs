//! GitHub's REST API as the library sees it: the records it returns and how
//! its answers for repositories and SSH keys are read.
use vstd::prelude::*;
use crate::text::{
    decimal, push_decimal, push_str, span_is, string_of_range, to_chars, trim, word_spans, words,
};

verus! {

/// The signed-in user.
#[derive(Debug)]
pub struct GhUser {
    pub login: String,
    pub name: Option<String>,
    pub email: Option<String>,
    pub avatar_url: String,
}

/// A repository of the user.
#[derive(Debug)]
pub struct GhRepo {
    pub full_name: String,
    pub name: String,
    pub private: bool,
    pub ssh_url: String,
    pub clone_url: String,
    pub description: Option<String>,
    pub default_branch: Option<String>,
}

/// An SSH key registered on the user's account.
#[derive(Debug)]
pub struct GhSshKey {
    pub id: u64,
    pub title: String,
    pub key: String,
}

/// A public key as GitHub compares it: its first two words (type and key
/// data) joined by a space, without the comment.
pub open spec fn key_core(key: Seq<char>) -> Seq<char> {
    let ws = words(key);
    if ws.len() == 0 {
        Seq::empty()
    } else if ws.len() == 1 {
        ws[0]
    } else {
        ws[0] + " "@ + ws[1]
    }
}

/// The first two words of a key, joined by a space.
pub fn key_core_of(key: &str) -> (r: String)
    ensures
        r@ == key_core(key@),
{
    let cs = to_chars(key);
    let ws = word_spans(cs.as_slice(), 0, cs.len(), 2);
    proof {
        assert(cs@.subrange(0, cs@.len() as int) =~= cs@);
    }
    if ws.len() == 0 {
        return String::new();
    }
    let a = ws[0];
    proof { assert(span_is(cs@, ws@[0], words(cs@)[0])); }
    let mut r = string_of_range(cs.as_slice(), a.start, a.end);
    if ws.len() > 1 {
        let b = ws[1];
        proof { assert(span_is(cs@, ws@[1], words(cs@)[1])); }
        push_str(&mut r, " ");
        let w = string_of_range(cs.as_slice(), b.start, b.end);
        push_str(&mut r, w.as_str());
    }
    r
}

/// Whether one of the account's keys is the given public key (compared by
/// type and key data).
pub fn is_key_registered(keys: &[GhSshKey], pubkey: &str) -> (r: bool)
    ensures
        r == exists|i: int| 0 <= i < keys@.len() && key_core(keys@[i].key@) == key_core(pubkey@),
{
    let clean = key_core_of(pubkey);
    let mut i: usize = 0;
    while i < keys.len()
        invariant
            i <= keys@.len(),
            clean@ == key_core(pubkey@),
            forall|j: int| 0 <= j < i ==> key_core(keys@[j].key@) != key_core(pubkey@),
        decreases keys@.len() - i,
    {
        let k = key_core_of(keys[i].key.as_str());
        if k == clean {
            return true;
        }
        i = i + 1;
    }
    false
}

/// What an answer to "create repository" means: created (201), a name in
/// use (422), a token without the `repo` scope (403), or another failure.
pub open spec fn create_repo_outcome(status: u16, name: Seq<char>) -> Result<(), Seq<char>> {
    if status == 201 {
        Ok(())
    } else if status == 422 {
        Err("Repo '"@ + name + "' already exists on your account"@)
    } else if status == 403 {
        Err("PAT lacks 'repo' scope — update via Ctrl+W"@)
    } else {
        Err("Create repo failed: "@ + decimal(status as nat))
    }
}

/// Reads the answer to "create repository" (see `create_repo_outcome`).
pub fn create_repo(status: u16, name: &str) -> (r: Result<(), String>)
    ensures
        match create_repo_outcome(status, name@) {
            Ok(()) => r is Ok,
            Err(e) => r matches Err(x) && x@ == e,
        },
{
    if status == 201 {
        Ok(())
    } else if status == 422 {
        let mut e = String::from_str("Repo '");
        push_str(&mut e, name);
        push_str(&mut e, "' already exists on your account");
        Err(e)
    } else if status == 403 {
        Err(String::from_str("PAT lacks 'repo' scope — update via Ctrl+W"))
    } else {
        let mut e = String::from_str("Create repo failed: ");
        push_decimal(&mut e, status as u64);
        Err(e)
    }
}

/// What an answer to "add SSH key" means.
pub open spec fn add_key_outcome(status: u16) -> Result<(), Seq<char>> {
    if status == 201 {
        Ok(())
    } else if status == 422 {
        Err("Key already exists on your GitHub account"@)
    } else if status == 403 {
        Err("PAT needs 'admin:public_key' scope to add SSH keys"@)
    } else {
        Err("Failed to add SSH key: "@ + decimal(status as nat))
    }
}

/// Reads the answer to "add SSH key" (see `add_key_outcome`).
pub fn add_ssh_key(status: u16) -> (r: Result<(), String>)
    ensures
        match add_key_outcome(status) {
            Ok(()) => r is Ok,
            Err(e) => r matches Err(x) && x@ == e,
        },
{
    if status == 201 {
        Ok(())
    } else if status == 422 {
        Err(String::from_str("Key already exists on your GitHub account"))
    } else if status == 403 {
        Err(String::from_str("PAT needs 'admin:public_key' scope to add SSH keys"))
    } else {
        let mut e = String::from_str("Failed to add SSH key: ");
        push_decimal(&mut e, status as u64);
        Err(e)
    }
}

/// The title under which the key is added: `SwiftGit on <host>`, the host
/// being what `hostname` printed (trimmed), or `unknown`.
pub open spec fn key_title(hostname_output: Option<Seq<char>>) -> Seq<char> {
    "SwiftGit on "@ + match hostname_output {
        Some(h) => trim(h),
        None => "unknown"@,
    }
}

/// The title for an added key (see `key_title`).
pub fn ssh_key_title(hostname_output: Option<&str>) -> (r: String)
    ensures
        r@ == key_title(
            match hostname_output {
                Some(h) => Some(h@),
                None => None,
            },
        ),
{
    let mut t = String::from_str("SwiftGit on ");
    match hostname_output {
        Some(h) => {
            let hs = crate::text::trim_str(h);
            push_str(&mut t, hs.as_str());
        },
        None => push_str(&mut t, "unknown"),
    }
    t
}

/// What registering the key reports: that it was there already, or the
/// title it was added under.
pub open spec fn register_report(already: bool, title: Seq<char>) -> Seq<char> {
    if already {
        "SSH key already registered on GitHub"@
    } else {
        "SSH key '"@ + title + "' added to GitHub"@
    }
}

/// The report of registering the key (see `register_report`).
pub fn auto_register_ssh_key(already: bool, title: &str) -> (r: String)
    ensures
        r@ == register_report(already, title@),
{
    if already {
        String::from_str("SSH key already registered on GitHub")
    } else {
        let mut s = String::from_str("SSH key '");
        push_str(&mut s, title);
        push_str(&mut s, "' added to GitHub");
        s
    }
}

} // verus!
