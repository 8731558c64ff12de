//! The webhook catalogue and process-wide settings, together with the
//! validation that runs once the configuration file has been read.
//!
//! Reading the configuration file itself is I/O and happens outside the
//! library; it hands over a `RawSettings` of plain values, and `Settings::new`
//! checks everything the catalogue promises: recognised modes, positive
//! parallel limits, unique names, and complete authentication options.

use vstd::prelude::*;

verus! {

/// The admission and dispatch policy of one webhook.
#[derive(Clone, Copy, PartialEq, Eq, Structural, Debug)]
pub enum WebhookMode {
    /// At most one task of this webhook exists at all, queued or running.
    Single,
    /// At most one task of this webhook waits in the queue; a running task
    /// is not a barrier for admission.
    Deploy,
    /// Any number may be admitted; at most `parallel_processes` run at once.
    Parallel,
}

/// One catalogue entry, immutable after load.
#[derive(Debug)]
pub struct Webhook {
    pub name: String,
    pub command: String,
    pub cwd: String,
    pub mode: WebhookMode,
    pub parallel_processes: usize,
}

/// A catalogue entry as the configuration file states it, before validation:
/// the mode still a free-form string, the parallel limit unchecked.
#[derive(Debug)]
pub struct RawWebhook {
    pub name: String,
    pub command: String,
    pub cwd: String,
    pub mode: String,
    pub parallel_processes: u32,
}

/// Process-wide read-only configuration.
#[derive(Debug)]
pub struct Settings {
    pub domain: String,
    pub port: u16,
    pub ssl_private_key: Option<String>,
    pub ssl_cert_chain: Option<String>,
    pub secret: Option<String>,
    pub basic_auth_user: Option<String>,
    pub basic_auth_password: Option<String>,
    pub basic_auth_and_secret: bool,
    pub workers: usize,
    pub webhooks: Vec<Webhook>,
}

/// The settings as read from the configuration file, before validation.
#[derive(Debug)]
pub struct RawSettings {
    pub domain: String,
    pub port: u16,
    pub ssl_private_key: Option<String>,
    pub ssl_cert_chain: Option<String>,
    pub secret: Option<String>,
    pub basic_auth_user: Option<String>,
    pub basic_auth_password: Option<String>,
    pub basic_auth_and_secret: bool,
    pub workers: u32,
    pub webhooks: Vec<RawWebhook>,
}

/// Why a configuration was rejected on load.
#[derive(Clone, Copy, PartialEq, Eq, Structural, Debug)]
pub enum SettingsError {
    /// `basic_auth_password` is set but `basic_auth_user` is not.
    MissingBasicAuthUser,
    /// `basic_auth_user` is set but `basic_auth_password` is not.
    MissingBasicAuthPassword,
    /// `basic_auth_and_secret` asks for a secret that is not there.
    MissingSecret,
    /// A webhook's `mode` is none of `single`, `deploy`, `parallel`.
    InvalidMode,
    /// A webhook's `parallel_processes` is zero.
    InvalidParallelProcesses,
    /// Two webhooks share a name; names key the catalogue.
    DuplicateName,
}

/// What a mode string means; `None` for anything unrecognised.
pub open spec fn mode_of_string(s: Seq<char>) -> Option<WebhookMode> {
    if s == "single"@ {
        Some(WebhookMode::Single)
    } else if s == "deploy"@ {
        Some(WebhookMode::Deploy)
    } else if s == "parallel"@ {
        Some(WebhookMode::Parallel)
    } else {
        None
    }
}

/// Parse the mode field of a catalogue entry.
pub fn parse_mode(s: &String) -> (mode: Option<WebhookMode>)
    ensures
        mode == mode_of_string(s@),
{
    if *s == String::from_str("single") {
        Some(WebhookMode::Single)
    } else if *s == String::from_str("deploy") {
        Some(WebhookMode::Deploy)
    } else if *s == String::from_str("parallel") {
        Some(WebhookMode::Parallel)
    } else {
        None
    }
}

/// The validated webhook that a raw entry stands for, assuming its mode
/// parses and its limit is positive.
pub open spec fn webhook_of_raw(raw: RawWebhook) -> Webhook {
    Webhook {
        name: raw.name,
        command: raw.command,
        cwd: raw.cwd,
        mode: mode_of_string(raw.mode@).unwrap(),
        parallel_processes: raw.parallel_processes as usize,
    }
}

/// Every raw entry carries a recognised mode.
pub open spec fn all_modes_valid(hooks: Seq<RawWebhook>) -> bool {
    forall|i: int| 0 <= i < hooks.len() ==> #[trigger] mode_of_string(hooks[i].mode@) is Some
}

/// Every raw entry carries a positive parallel limit.
pub open spec fn all_limits_positive(hooks: Seq<RawWebhook>) -> bool {
    forall|i: int| 0 <= i < hooks.len() ==> #[trigger] hooks[i].parallel_processes > 0
}

/// No two raw entries share a name.
pub open spec fn raw_names_unique(hooks: Seq<RawWebhook>) -> bool {
    forall|i: int, j: int|
        0 <= i < j < hooks.len() ==> #[trigger] hooks[i].name@ != #[trigger] hooks[j].name@
}

/// No two catalogue entries share a name.
pub open spec fn names_unique(hooks: Seq<Webhook>) -> bool {
    forall|i: int, j: int|
        0 <= i < j < hooks.len() ==> #[trigger] hooks[i].name@ != #[trigger] hooks[j].name@
}

/// Some catalogue entry carries this name.
pub open spec fn has_hook(hooks: Seq<Webhook>, name: Seq<char>) -> bool {
    exists|i: int| 0 <= i < hooks.len() && #[trigger] hooks[i].name@ == name
}

/// The index of the catalogue entry with this name. Meaningful only where
/// `has_hook` holds; with unique names it is then the one such index.
pub open spec fn hook_index_of(hooks: Seq<Webhook>, name: Seq<char>) -> int {
    choose|i: int| 0 <= i < hooks.len() && #[trigger] hooks[i].name@ == name
}

/// With unique names, any index whose entry carries the name is the index
/// that `hook_index_of` denotes.
pub proof fn lemma_hook_index_is(hooks: Seq<Webhook>, i: int)
    requires
        names_unique(hooks),
        0 <= i < hooks.len(),
    ensures
        hook_index_of(hooks, hooks[i].name@) == i,
{
    let name = hooks[i].name@;
    assert(has_hook(hooks, name));
    let j = hook_index_of(hooks, name);
    if i < j {
        assert(hooks[i].name@ != hooks[j].name@);
    } else if j < i {
        assert(hooks[j].name@ != hooks[i].name@);
    }
}

/// The catalogue that a raw one stands for, entry by entry.
pub open spec fn catalogue_of_raw(raw: Seq<RawWebhook>, hooks: Seq<Webhook>) -> bool {
    &&& hooks.len() == raw.len()
    &&& forall|i: int| 0 <= i < raw.len() ==> #[trigger] hooks[i] == webhook_of_raw(raw[i])
}

/// The settings that a raw configuration stands for, all checks passed.
pub open spec fn settings_of_raw(raw: RawSettings, s: Settings) -> bool {
    &&& s.domain == raw.domain
    &&& s.port == raw.port
    &&& s.ssl_private_key == raw.ssl_private_key
    &&& s.ssl_cert_chain == raw.ssl_cert_chain
    &&& s.secret == raw.secret
    &&& s.basic_auth_user == raw.basic_auth_user
    &&& s.basic_auth_password == raw.basic_auth_password
    &&& s.basic_auth_and_secret == raw.basic_auth_and_secret
    &&& s.workers == raw.workers as usize
    &&& catalogue_of_raw(raw.webhooks@, s.webhooks@)
}

/// A raw configuration passes validation exactly when all of this holds.
pub open spec fn raw_settings_valid(raw: RawSettings) -> bool {
    &&& !(raw.basic_auth_password is Some && raw.basic_auth_user is None)
    &&& !(raw.basic_auth_user is Some && raw.basic_auth_password is None)
    &&& !(raw.basic_auth_and_secret && raw.secret is None)
    &&& !(raw.basic_auth_and_secret && raw.basic_auth_user is None)
    &&& all_modes_valid(raw.webhooks@)
    &&& all_limits_positive(raw.webhooks@)
    &&& raw_names_unique(raw.webhooks@)
}

impl Settings {
    /// Validate a freshly read configuration. Returns the catalogue with the
    /// mode strings replaced by the closed mode type, or the reason the
    /// configuration is rejected; the process must not start serving on an
    /// `Err`.
    pub fn new(raw: RawSettings) -> (result: Result<Settings, SettingsError>)
        ensures
            result is Ok <==> raw_settings_valid(raw),
            result matches Ok(s) ==> settings_of_raw(raw, s),
            result matches Ok(s) ==> names_unique(s.webhooks@),
            result matches Err(e) ==> match e {
                SettingsError::MissingBasicAuthUser => raw.basic_auth_user is None && (
                raw.basic_auth_password is Some || raw.basic_auth_and_secret),
                SettingsError::MissingBasicAuthPassword => raw.basic_auth_user is Some
                    && raw.basic_auth_password is None,
                SettingsError::MissingSecret => raw.basic_auth_and_secret && raw.secret is None,
                SettingsError::InvalidMode => !all_modes_valid(raw.webhooks@),
                SettingsError::InvalidParallelProcesses => !all_limits_positive(raw.webhooks@),
                SettingsError::DuplicateName => !raw_names_unique(raw.webhooks@),
            },
    {
        if raw.basic_auth_password.is_some() && raw.basic_auth_user.is_none() {
            return Err(SettingsError::MissingBasicAuthUser);
        }
        if raw.basic_auth_user.is_some() && raw.basic_auth_password.is_none() {
            return Err(SettingsError::MissingBasicAuthPassword);
        }
        if raw.basic_auth_and_secret && raw.secret.is_none() {
            return Err(SettingsError::MissingSecret);
        }
        if raw.basic_auth_and_secret && raw.basic_auth_user.is_none() {
            return Err(SettingsError::MissingBasicAuthUser);
        }

        let n = raw.webhooks.len();
        let mut i: usize = 0;
        while i < n
            invariant
                0 <= i <= n,
                n == raw.webhooks@.len(),
                forall|k: int| 0 <= k < i ==> #[trigger] mode_of_string(
                    raw.webhooks@[k].mode@,
                ) is Some,
                forall|k: int| 0 <= k < i ==> #[trigger] raw.webhooks@[k].parallel_processes > 0,
            decreases n - i,
        {
            if parse_mode(&raw.webhooks[i].mode).is_none() {
                return Err(SettingsError::InvalidMode);
            }
            if raw.webhooks[i].parallel_processes == 0 {
                return Err(SettingsError::InvalidParallelProcesses);
            }
            i += 1;
        }

        let mut i: usize = 0;
        while i < n
            invariant
                0 <= i <= n,
                n == raw.webhooks@.len(),
                forall|k: int, l: int|
                    0 <= k < l < raw.webhooks@.len() && k < i ==> #[trigger] raw.webhooks@[k].name@
                        != #[trigger] raw.webhooks@[l].name@,
            decreases n - i,
        {
            let mut j: usize = i + 1;
            while j < n
                invariant
                    i < j <= n,
                    n == raw.webhooks@.len(),
                    forall|l: int| i < l < j ==> raw.webhooks@[i as int].name@
                        != #[trigger] raw.webhooks@[l].name@,
                decreases n - j,
            {
                if raw.webhooks[i].name == raw.webhooks[j].name {
                    return Err(SettingsError::DuplicateName);
                }
                j += 1;
            }
            i += 1;
        }

        let mut hooks: Vec<Webhook> = Vec::new();
        let mut i: usize = 0;
        while i < n
            invariant
                0 <= i <= n,
                n == raw.webhooks@.len(),
                all_modes_valid(raw.webhooks@),
                all_limits_positive(raw.webhooks@),
                hooks@.len() == i,
                forall|k: int| 0 <= k < i ==> #[trigger] hooks@[k] == webhook_of_raw(
                    raw.webhooks@[k],
                ),
            decreases n - i,
        {
            let entry = &raw.webhooks[i];
            let mode = match parse_mode(&entry.mode) {
                Some(mode) => mode,
                None => {
                    return Err(SettingsError::InvalidMode);
                },
            };
            hooks.push(Webhook {
                name: entry.name.clone(),
                command: entry.command.clone(),
                cwd: entry.cwd.clone(),
                mode,
                parallel_processes: entry.parallel_processes as usize,
            });
            i += 1;
        }

        proof {
            assert forall|k: int, l: int|
                0 <= k < l < hooks@.len() implies #[trigger] hooks@[k].name@
                != #[trigger] hooks@[l].name@ by {
                assert(hooks@[k].name == raw.webhooks@[k].name);
                assert(hooks@[l].name == raw.webhooks@[l].name);
            }
        }
        Ok(Settings {
            domain: raw.domain,
            port: raw.port,
            ssl_private_key: raw.ssl_private_key,
            ssl_cert_chain: raw.ssl_cert_chain,
            secret: raw.secret,
            basic_auth_user: raw.basic_auth_user,
            basic_auth_password: raw.basic_auth_password,
            basic_auth_and_secret: raw.basic_auth_and_secret,
            workers: raw.workers as usize,
            webhooks: hooks,
        })
    }

    /// Look a webhook up by name: the first (with a valid catalogue, the
    /// only) entry carrying it, or `None` for a name outside the catalogue.
    pub fn get_webhook_by_name(&self, name: &String) -> (result: Option<Webhook>)
        ensures
            result is Some <==> has_hook(self.webhooks@, name@),
            result matches Some(hook) ==> {
                &&& has_hook(self.webhooks@, name@)
                &&& exists|i: int|
                    0 <= i < self.webhooks@.len() && #[trigger] self.webhooks@[i] == hook
                        && hook.name@ == name@ && forall|j: int|
                        0 <= j < i ==> #[trigger] self.webhooks@[j].name@ != name@
            },
    {
        let n = self.webhooks.len();
        let mut i: usize = 0;
        while i < n
            invariant
                0 <= i <= n,
                n == self.webhooks@.len(),
                forall|j: int| 0 <= j < i ==> #[trigger] self.webhooks@[j].name@ != name@,
            decreases n - i,
        {
            if self.webhooks[i].name == *name {
                return Some(self.webhooks[i].clone());
            }
            i += 1;
        }
        None
    }
}

impl Clone for Webhook {
    fn clone(&self) -> (res: Webhook)
        ensures
            res == *self,
    {
        Webhook {
            name: self.name.clone(),
            command: self.command.clone(),
            cwd: self.cwd.clone(),
            mode: self.mode,
            parallel_processes: self.parallel_processes,
        }
    }
}

impl Clone for Settings {
    fn clone(&self) -> (res: Settings)
        ensures
            res.domain == self.domain,
            res.port == self.port,
            res.ssl_private_key == self.ssl_private_key,
            res.ssl_cert_chain == self.ssl_cert_chain,
            res.secret == self.secret,
            res.basic_auth_user == self.basic_auth_user,
            res.basic_auth_password == self.basic_auth_password,
            res.basic_auth_and_secret == self.basic_auth_and_secret,
            res.workers == self.workers,
            res.webhooks@ == self.webhooks@,
    {
        let mut webhooks: Vec<Webhook> = Vec::new();
        let n = self.webhooks.len();
        let mut i: usize = 0;
        while i < n
            invariant
                0 <= i <= n,
                n == self.webhooks@.len(),
                webhooks@.len() == i,
                forall|k: int| 0 <= k < i ==> #[trigger] webhooks@[k] == self.webhooks@[k],
            decreases n - i,
        {
            webhooks.push(self.webhooks[i].clone());
            i += 1;
        }
        proof {
            assert(webhooks@ =~= self.webhooks@);
        }
        Settings {
            domain: self.domain.clone(),
            port: self.port,
            ssl_private_key: self.ssl_private_key.clone(),
            ssl_cert_chain: self.ssl_cert_chain.clone(),
            secret: self.secret.clone(),
            basic_auth_user: self.basic_auth_user.clone(),
            basic_auth_password: self.basic_auth_password.clone(),
            basic_auth_and_secret: self.basic_auth_and_secret,
            workers: self.workers,
            webhooks,
        }
    }
}

} // verus!
