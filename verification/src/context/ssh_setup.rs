//! The SSH setup screen: finding or creating a key, showing it, and testing
//! the connection to GitHub.
use vstd::prelude::*;
use crate::auth::SshStatus;
use crate::events::{Effect, KeyCode, KeyEvent, Reaction, react, react_with};
use crate::model::{AppMode, Model};
use crate::ui::SshSetupStep;

verus! {

/// The SSH setup screen.
pub struct SshSetupContext;

/// Where leaving the SSH setup goes: the sign-in screen when no token is
/// stored, else the dashboard.
pub open spec fn after_ssh(m: Model) -> AppMode {
    if m.config.github_token is None {
        AppMode::Auth
    } else {
        AppMode::Dashboard
    }
}

/// The address a new key is made for: the stored user name, or
/// `swiftgit@local`.
pub open spec fn key_email(m: Model) -> Seq<char> {
    match m.config.username {
        Some(u) => u@,
        None => "swiftgit@local"@,
    }
}

/// What the SSH setup does with a key, from `m` to `n`; it takes every key.
pub open spec fn ssh_step(m: Model, n: Model, key: KeyEvent, r: Reaction) -> bool {
    &&& r.handled
    &&& match m.ssh_step {
        SshSetupStep::Detecting => n == m && r.effect is DetectSsh,
        SshSetupStep::NeedGenerate => if key.code is Enter {
            r.effect matches Effect::GenerateSshKey { email } && email@ == key_email(m)
                && n == (Model { ssh_step: SshSetupStep::Generating, ..m })
        } else if key.code is Esc {
            n == (Model { mode: after_ssh(m), ..m }) && r.effect is Nothing
        } else {
            n == m && r.effect is Nothing
        },
        SshSetupStep::ShowPubkey { .. } => if key.code is Enter {
            n == (Model { ssh_step: SshSetupStep::Testing, ..m }) && r.effect is TestSsh
        } else if key.code is Esc {
            n == (Model { mode: after_ssh(m), ..m }) && r.effect is Nothing
        } else {
            n == m && r.effect is Nothing
        },
        SshSetupStep::Connected { .. } => r.effect is Nothing && if key.code is Enter || key.code is Esc {
            n == (Model { mode: after_ssh(m), ..m })
        } else {
            n == m
        },
        SshSetupStep::Error(_) => r.effect is Nothing && if key.code is Enter {
            n == (Model { ssh_step: SshSetupStep::Detecting, ..m })
        } else if key.code is Esc {
            n == (Model { mode: AppMode::Dashboard, ..m })
        } else {
            n == m
        },
        _ => n == m && r.effect is Nothing,
    }
}

impl SshSetupContext {
    /// The name of the view.
    pub fn view_name(&self) -> (r: &'static str)
        ensures
            r@ == "ssh_setup"@,
    {
        "ssh_setup"
    }

    /// What the SSH setup does with a key, as `ssh_step` says: while
    /// detecting, any key looks for a key; Enter creates a key, tests the
    /// connection, finishes or retries, depending on the step; Esc leaves.
    pub fn handle_event(&self, key: KeyEvent, model: &mut Model) -> (r: Reaction)
        ensures
            ssh_step(*old(model), *final(model), key, r),
    {
        match &model.ssh_step {
            SshSetupStep::Detecting => react_with(true, Effect::DetectSsh),
            SshSetupStep::NeedGenerate => {
                if key.code == KeyCode::Enter {
                    model.ssh_step = SshSetupStep::Generating;
                    let email = match &model.config.username {
                        Some(u) => u.clone(),
                        None => String::from_str("swiftgit@local"),
                    };
                    react_with(true, Effect::GenerateSshKey { email })
                } else if key.code == KeyCode::Esc {
                    model.mode = if model.config.github_token.is_none() {
                        AppMode::Auth
                    } else {
                        AppMode::Dashboard
                    };
                    react(true)
                } else {
                    react(true)
                }
            },
            SshSetupStep::ShowPubkey { .. } => {
                if key.code == KeyCode::Enter {
                    model.ssh_step = SshSetupStep::Testing;
                    react_with(true, Effect::TestSsh)
                } else if key.code == KeyCode::Esc {
                    model.mode = if model.config.github_token.is_none() {
                        AppMode::Auth
                    } else {
                        AppMode::Dashboard
                    };
                    react(true)
                } else {
                    react(true)
                }
            },
            SshSetupStep::Connected { .. } => {
                if key.code == KeyCode::Enter || key.code == KeyCode::Esc {
                    model.mode = if model.config.github_token.is_none() {
                        AppMode::Auth
                    } else {
                        AppMode::Dashboard
                    };
                }
                react(true)
            },
            SshSetupStep::Error(_) => {
                if key.code == KeyCode::Enter {
                    model.ssh_step = SshSetupStep::Detecting;
                } else if key.code == KeyCode::Esc {
                    model.mode = AppMode::Dashboard;
                }
                react(true)
            },
            _ => react(true),
        }
    }

    /// Takes what looking for a key found: an accepted key connects (and
    /// the settings are saved); a key GitHub does not accept yet is shown,
    /// after an attempt to add it to the account when a token is stored; no
    /// key asks to create one.
    pub fn finish_ssh_detect(&self, model: &mut Model, status: SshStatus) -> (r: Effect)
        ensures
            match status {
                SshStatus::Ready { pubkey, .. } => {
                    &&& r is SaveConfig
                    &&& final(model).ssh_step matches SshSetupStep::Connected { username } && username@ == "GitHub"@
                    &&& final(model).config.ssh_key_added
                    &&& *final(model) == (Model {
                        ssh_pubkey: pubkey,
                        ssh_step: final(model).ssh_step,
                        config: final(model).config,
                        ..*old(model)
                    })
                    &&& final(model).config == (crate::config::SwiftGitConfig { ssh_key_added: true, ..old(model).config })
                },
                SshStatus::PubkeyPending { pubkey, .. } => match old(model).config.github_token {
                    Some(t) => r matches Effect::RegisterKey { access_token, pubkey: k } && access_token == t && k == pubkey
                        && *final(model) == (Model { ssh_pubkey: pubkey, ..*old(model) }),
                    None => r is Nothing && *final(model) == (Model {
                        ssh_pubkey: pubkey,
                        ssh_step: SshSetupStep::ShowPubkey { pubkey, auto_added: false },
                        ..*old(model)
                    }),
                },
                SshStatus::NoKey => r is Nothing && *final(model) == (Model {
                    ssh_step: SshSetupStep::NeedGenerate,
                    ..*old(model)
                }),
            },
    {
        match status {
            SshStatus::Ready { pubkey, .. } => {
                model.ssh_pubkey = pubkey;
                model.ssh_step = SshSetupStep::Connected { username: String::from_str("GitHub") };
                model.config.ssh_key_added = true;
                Effect::SaveConfig
            },
            SshStatus::PubkeyPending { pubkey, .. } => {
                model.ssh_pubkey = pubkey.clone();
                match &model.config.github_token {
                    Some(t) => Effect::RegisterKey { access_token: t.clone(), pubkey },
                    None => {
                        model.ssh_step = SshSetupStep::ShowPubkey { pubkey, auto_added: false };
                        Effect::Nothing
                    },
                }
            },
            SshStatus::NoKey => {
                model.ssh_step = SshSetupStep::NeedGenerate;
                Effect::Nothing
            },
        }
    }

    /// Takes the public key of a newly created key (or why creating it
    /// failed): the key is shown, after an attempt to add it to the account
    /// when a token is stored.
    pub fn finish_ssh_generate(&self, model: &mut Model, outcome: Result<String, String>) -> (r: Effect)
        ensures
            match outcome {
                Ok(pubkey) => match old(model).config.github_token {
                    Some(t) => r matches Effect::RegisterKey { access_token, pubkey: k } && access_token == t && k == pubkey
                        && *final(model) == (Model { ssh_pubkey: pubkey, ..*old(model) }),
                    None => r is Nothing && *final(model) == (Model {
                        ssh_pubkey: pubkey,
                        ssh_step: SshSetupStep::ShowPubkey { pubkey, auto_added: false },
                        ..*old(model)
                    }),
                },
                Err(e) => r is Nothing && *final(model) == (Model { ssh_step: SshSetupStep::Error(e), ..*old(model) }),
            },
    {
        match outcome {
            Ok(pubkey) => {
                model.ssh_pubkey = pubkey.clone();
                match &model.config.github_token {
                    Some(t) => Effect::RegisterKey { access_token: t.clone(), pubkey },
                    None => {
                        model.ssh_step = SshSetupStep::ShowPubkey { pubkey, auto_added: false };
                        Effect::Nothing
                    },
                }
            },
            Err(e) => {
                model.ssh_step = SshSetupStep::Error(e);
                Effect::Nothing
            },
        }
    }

    /// Shows the public key, with whether adding it to the account worked.
    pub fn finish_ssh_register(&self, model: &mut Model, added: bool)
        ensures
            *final(model) == (Model {
                ssh_step: SshSetupStep::ShowPubkey { pubkey: old(model).ssh_pubkey, auto_added: added },
                ..*old(model)
            }),
    {
        model.ssh_step = SshSetupStep::ShowPubkey { pubkey: model.ssh_pubkey.clone(), auto_added: added };
    }

    /// Takes the result of testing the connection: the user GitHub greeted
    /// (the settings are then saved), or the error.
    pub fn finish_ssh_test(&self, model: &mut Model, outcome: Result<String, String>) -> (r: Effect)
        ensures
            match outcome {
                Ok(user) => r is SaveConfig && *final(model) == (Model {
                    ssh_step: SshSetupStep::Connected { username: user },
                    config: crate::config::SwiftGitConfig { ssh_key_added: true, ..old(model).config },
                    ..*old(model)
                }),
                Err(e) => r is Nothing && *final(model) == (Model { ssh_step: SshSetupStep::Error(e), ..*old(model) }),
            },
    {
        match outcome {
            Ok(user) => {
                model.ssh_step = SshSetupStep::Connected { username: user };
                model.config.ssh_key_added = true;
                Effect::SaveConfig
            },
            Err(e) => {
                model.ssh_step = SshSetupStep::Error(e);
                Effect::Nothing
            },
        }
    }
}

} // verus!
