//! What each command decides, apart from the prompts, the printing and the
//! file and `git` work around it.
use vstd::prelude::*;
use crate::config::{
    add_result, config_error_text, delete_result, opt_view, outcome_view, set_default_result,
    update_result, Config, ConfigError, ConfigErrorModel, Profile, ProfileMap, ProfileModel,
};
use crate::error::{GuseError, GuseErrorModel};
use crate::git::{GitConfig, GitError};
use crate::ssh_config::{
    entries_view, host_block, parse_hosts, parse_ssh_config, render_host, HostModel, SshHostEntry,
};
use crate::text::{chars_of, concat, has_prefix, has_suffix, matches_at};
use crate::utils::{regex_compiles, validate_email, validate_ssh_host, EMAIL_PATTERN};

verus! {

/// Which profile `switch` goes to.
#[derive(Debug)]
pub enum ProfileChoice {
    /// The store has no profiles.
    NoProfiles,
    /// The profile named on the command line.
    Explicit(String),
    /// The profile named on the command line is not in the store.
    NotFound(String),
    /// The store's default profile.
    Default(String),
    /// The user picks one; carries the default when it names no profile.
    Interactive(Option<String>),
}

/// Which profile `delete` or `update` works on.
#[derive(Debug)]
pub enum Target {
    NoProfiles,
    Named(String),
    NotFound(String),
    /// The user picks one.
    Choose,
}

/// What `switch` does to the `origin` remote.
#[derive(Debug)]
pub enum RemotePlan {
    /// Point `origin` at the profile's SSH host.
    SetRemote { host: String, user: String, repo: String },
    /// The profile has no SSH host: `origin` stays as it is.
    KeepRemote { user: String, repo: String },
    /// `origin` is missing or not in a form that is read.
    NoOrigin,
}

/// `r` is the profile that `switch` goes to: the one named, else the
/// default if it is in the store, else the user's pick.
pub open spec fn is_choice(
    r: ProfileChoice,
    requested: Option<Seq<char>>,
    default: Option<Seq<char>>,
    profiles: Map<Seq<char>, ProfileModel>,
) -> bool {
    if profiles.len() == 0 {
        r is NoProfiles
    } else {
        match requested {
            Some(n) => if profiles.contains_key(n) {
                r is Explicit && r->Explicit_0@ == n
            } else {
                r is NotFound && r->NotFound_0@ == n
            },
            None => match default {
                Some(d) => if profiles.contains_key(d) {
                    r is Default && r->Default_0@ == d
                } else {
                    r is Interactive && opt_view(r->Interactive_0) == Some(d)
                },
                None => r is Interactive && r->Interactive_0 is None,
            },
        }
    }
}

/// The profile to switch to: the one named, else the default if it is in
/// the store, else the user's pick.
pub fn resolve_profile(
    requested: &Option<String>,
    default: &Option<String>,
    profiles: &ProfileMap,
) -> (r: ProfileChoice)
    ensures
        is_choice(r, opt_view(*requested), opt_view(*default), profiles@),
{
    if profiles.is_empty() {
        return ProfileChoice::NoProfiles;
    }
    match requested {
        Some(n) => {
            if profiles.contains_key(n.as_str()) {
                ProfileChoice::Explicit(n.clone())
            } else {
                ProfileChoice::NotFound(n.clone())
            }
        },
        None => match default {
            Some(d) => {
                if profiles.contains_key(d.as_str()) {
                    ProfileChoice::Default(d.clone())
                } else {
                    ProfileChoice::Interactive(Some(d.clone()))
                }
            },
            None => ProfileChoice::Interactive(None),
        },
    }
}

/// The profile to delete or update: the one named, else the user's pick.
pub fn resolve_target(requested: &Option<String>, profiles: &ProfileMap) -> (r: Target)
    ensures
        profiles@.len() == 0 ==> r is NoProfiles,
        profiles@.len() > 0 ==> match requested {
            Some(n) => if profiles@.contains_key(n@) {
                r is Named && r->Named_0@ == n@
            } else {
                r is NotFound && r->NotFound_0@ == n@
            },
            None => r is Choose,
        },
{
    if profiles.is_empty() {
        return Target::NoProfiles;
    }
    match requested {
        Some(n) => {
            if profiles.contains_key(n.as_str()) {
                Target::Named(n.clone())
            } else {
                Target::NotFound(n.clone())
            }
        },
        None => Target::Choose,
    }
}

/// The store's profiles, or its load failure as a command error.
fn load(config: &Config) -> (r: Result<ProfileMap, GuseError>)
    ensures
        match config@.stored {
            Ok(f) => r is Ok && r->Ok_0@ == f.profiles,
            Err(e) => r is Err && r->Err_0@ == GuseErrorModel::ConfigError(config_error_text(e)),
        },
{
    match config.load_profiles() {
        Ok(p) => Ok(p),
        Err(e) => Err(GuseError::from_config_error(e)),
    }
}

/// `list`: every profile with its key.
pub struct ListCommand;

impl ListCommand {
    /// The profiles to show, each key once.
    pub fn execute(&self, config: &Config) -> (r: Result<Vec<(String, Profile)>, GuseError>)
        ensures
            match config@.stored {
                Ok(f) => r is Ok && r->Ok_0@.len() == f.profiles.len() && (forall|i: int|
                    0 <= i < r->Ok_0@.len() ==> #[trigger] f.profiles.contains_key(
                        r->Ok_0@[i].0@,
                    ) && f.profiles[r->Ok_0@[i].0@] == r->Ok_0@[i].1@) && (forall|k: Seq<char>|
                    f.profiles.contains_key(k) ==> exists|i: int|
                        0 <= i < r->Ok_0@.len() && #[trigger] r->Ok_0@[i].0@ == k),
                Err(e) => r is Err && r->Err_0@ == GuseErrorModel::ConfigError(
                    config_error_text(e),
                ),
            },
    {
        let profiles = load(config)?;
        let keys = profiles.keys();
        let mut out: Vec<(String, Profile)> = Vec::new();
        let mut i: usize = 0;
        while i < keys.len()
            invariant
                i <= keys@.len(),
                out@.len() == i,
                forall|j: int| 0 <= j < keys@.len() ==> profiles@.contains_key(#[trigger] keys@[j]@),
                forall|j: int|
                    0 <= j < i ==> #[trigger] out@[j].0@ == keys@[j]@ && profiles@[keys@[j]@]
                        == out@[j].1@,
            decreases keys@.len() - i,
        {
            let k = &keys[i];
            let p = profiles.get(k.as_str()).unwrap().copy();
            out.push((k.clone(), p));
            i = i + 1;
        }
        proof {
            assert forall|k: Seq<char>| profiles@.contains_key(k) implies exists|j: int|
                0 <= j < out@.len() && #[trigger] out@[j].0@ == k by {
                let j = choose|j: int| 0 <= j < keys@.len() && #[trigger] keys@[j]@ == k;
                assert(out@[j].0@ == k);
            }
        }
        Ok(out)
    }
}

/// `switch [profile]`.
pub struct SwitchCommand {
    pub profile: Option<String>,
}

impl SwitchCommand {
    /// The profile to switch to, from the store as loaded.
    pub fn execute(&self, config: &Config) -> (r: Result<ProfileChoice, GuseError>)
        ensures
            match config@.stored {
                Ok(f) => r is Ok && is_choice(
                    r->Ok_0,
                    opt_view(self.profile),
                    config@.default_profile,
                    f.profiles,
                ),
                Err(e) => r is Err && r->Err_0@ == GuseErrorModel::ConfigError(
                    config_error_text(e),
                ),
            },
    {
        let profiles = load(config)?;
        let default = config.get_default_profile();
        Ok(resolve_profile(&self.profile, &default, &profiles))
    }

    /// What to do with `origin` once the profile's identity is applied,
    /// from what reading the origin URL gave.
    pub fn perform_switch(profile: &Profile, origin: Result<(String, String), GitError>) -> (r:
        RemotePlan)
        ensures
            match origin {
                Err(_) => r is NoOrigin,
                Ok((u, p)) => if profile.ssh_host@.len() == 0 {
                    r matches RemotePlan::KeepRemote { user, repo } && user@ == u@ && repo@ == p@
                } else {
                    r matches RemotePlan::SetRemote { host, user, repo } && host@
                        == profile.ssh_host@ && user@ == u@ && repo@ == p@
                },
            },
    {
        match origin {
            Err(_) => RemotePlan::NoOrigin,
            Ok((user, repo)) => {
                if profile.ssh_host.as_str().is_empty() {
                    RemotePlan::KeepRemote { user, repo }
                } else {
                    RemotePlan::SetRemote { host: profile.ssh_host.clone(), user, repo }
                }
            },
        }
    }
}

/// `r` is the profile that `delete` or `update` works on.
pub open spec fn is_target(
    r: Target,
    requested: Option<Seq<char>>,
    profiles: Map<Seq<char>, ProfileModel>,
) -> bool {
    if profiles.len() == 0 {
        r is NoProfiles
    } else {
        match requested {
            Some(n) => if profiles.contains_key(n) {
                r is Named && r->Named_0@ == n
            } else {
                r is NotFound && r->NotFound_0@ == n
            },
            None => r is Choose,
        }
    }
}

/// A profile that may be stored: the email holds an `@` and passes the
/// email pattern, and the SSH host is not empty.
pub open spec fn acceptable_profile(p: ProfileModel) -> bool {
    regex_compiles(EMAIL_PATTERN@) && p.email.contains('@') && p.ssh_host.len() > 0
}

pub open spec fn command_outcome(r: Result<(), ConfigErrorModel>) -> Result<(), GuseErrorModel> {
    match r {
        Ok(()) => Ok(()),
        Err(e) => Err(GuseErrorModel::ConfigError(config_error_text(e))),
    }
}

pub open spec fn guse_outcome(r: Result<(), GuseError>) -> Result<(), GuseErrorModel> {
    match r {
        Ok(()) => Ok(()),
        Err(e) => Err(e@),
    }
}

fn lift(r: Result<(), ConfigError>) -> (o: Result<(), GuseError>)
    ensures
        guse_outcome(o) == command_outcome(outcome_view(r)),
{
    match r {
        Ok(()) => Ok(()),
        Err(e) => Err(GuseError::from_config_error(e)),
    }
}

fn check_profile(p: &Profile) -> (r: Result<(), GuseError>)
    ensures
        r is Ok <==> acceptable_profile(p@),
        r is Err ==> r->Err_0@ is ValidationError,
{
    validate_email(p.email.as_str())?;
    validate_ssh_host(p.ssh_host.as_str())
}

/// `set-default <profile>`.
pub struct SetDefaultCommand {
    pub profile_name: String,
}

impl SetDefaultCommand {
    /// Makes the named profile the default; it must be in the store.
    pub fn execute(&self, config: &mut Config) -> (r: Result<(), GuseError>)
        ensures
            match old(config)@.stored {
                Err(e) => r is Err && r->Err_0@ == GuseErrorModel::ConfigError(config_error_text(e))
                    && final(config)@ == old(config)@,
                Ok(f) => if f.profiles.contains_key(self.profile_name@) {
                    r is Ok && final(config)@ == set_default_result(
                        old(config)@,
                        Some(self.profile_name@),
                    ).1
                } else {
                    r is Err && r->Err_0@ == GuseErrorModel::ConfigError(
                        "Profile '"@ + self.profile_name@ + "' not found."@,
                    ) && final(config)@ == old(config)@
                },
            },
    {
        let profiles = load(config)?;
        if !profiles.contains_key(self.profile_name.as_str()) {
            let mut m = concat("Profile '", self.profile_name.as_str());
            m.append("' not found.");
            return Err(GuseError::ConfigError(m));
        }
        lift(config.set_default_profile(Some(self.profile_name.clone())))
    }
}

/// `unset-default`.
pub struct UnsetDefaultCommand {}

impl UnsetDefaultCommand {
    /// Clears the default profile.
    pub fn execute(&self, config: &mut Config) -> (r: Result<(), GuseError>)
        ensures
            guse_outcome(r) == command_outcome(set_default_result(old(config)@, None).0),
            final(config)@ == set_default_result(old(config)@, None).1,
    {
        lift(config.set_default_profile(None))
    }
}

/// `add <profile>`.
pub struct AddCommand {
    pub profile: String,
}

impl AddCommand {
    /// Stores the profile typed in under this command's key, once it passes
    /// the checks; a profile already there is replaced.
    pub fn execute(&self, config: &mut Config, profile: Profile) -> (r: Result<(), GuseError>)
        ensures
            !acceptable_profile(profile@) ==> r is Err && r->Err_0@ is ValidationError
                && final(config)@ == old(config)@,
            acceptable_profile(profile@) ==> guse_outcome(r) == command_outcome(
                add_result(old(config)@, self.profile@, profile@).0,
            ) && final(config)@ == add_result(old(config)@, self.profile@, profile@).1,
    {
        check_profile(&profile)?;
        lift(config.add_profile(self.profile.clone(), profile))
    }
}

/// `update [profile]`.
pub struct UpdateCommand {
    pub profile: Option<String>,
}

impl UpdateCommand {
    /// The profile to update.
    pub fn target(&self, config: &Config) -> (r: Result<Target, GuseError>)
        ensures
            match config@.stored {
                Ok(f) => r is Ok && is_target(r->Ok_0, opt_view(self.profile), f.profiles),
                Err(e) => r is Err && r->Err_0@ == GuseErrorModel::ConfigError(
                    config_error_text(e),
                ),
            },
    {
        let profiles = load(config)?;
        Ok(resolve_target(&self.profile, &profiles))
    }

    /// Replaces the profile under `key` by the one typed in, once it passes
    /// the checks.
    pub fn execute(&self, config: &mut Config, key: &str, profile: Profile) -> (r: Result<
        (),
        GuseError,
    >)
        ensures
            !acceptable_profile(profile@) ==> r is Err && r->Err_0@ is ValidationError
                && final(config)@ == old(config)@,
            acceptable_profile(profile@) ==> guse_outcome(r) == command_outcome(
                update_result(old(config)@, key@, profile@).0,
            ) && final(config)@ == update_result(old(config)@, key@, profile@).1,
    {
        check_profile(&profile)?;
        lift(config.update_profile(key, profile))
    }
}

/// `delete [profile]`.
pub struct DeleteCommand {
    pub profile: Option<String>,
}

impl DeleteCommand {
    /// The profile to delete.
    pub fn target(&self, config: &Config) -> (r: Result<Target, GuseError>)
        ensures
            match config@.stored {
                Ok(f) => r is Ok && is_target(r->Ok_0, opt_view(self.profile), f.profiles),
                Err(e) => r is Err && r->Err_0@ == GuseErrorModel::ConfigError(
                    config_error_text(e),
                ),
            },
    {
        let profiles = load(config)?;
        Ok(resolve_target(&self.profile, &profiles))
    }

    /// Deletes the profile under `key`.
    pub fn execute(&self, config: &mut Config, key: &str) -> (r: Result<(), GuseError>)
        ensures
            guse_outcome(r) == command_outcome(delete_result(old(config)@, key@).0),
            final(config)@ == delete_result(old(config)@, key@).1,
    {
        lift(config.delete_profile(key))
    }
}

/// `show`.
pub struct ShowCommand;

/// The profile has the identity that Git reports.
pub open spec fn matches_identity(p: ProfileModel, current: GitConfig) -> bool {
    p.name == current.user_name@ && p.email == current.user_email@
}

impl ShowCommand {
    /// The key of a profile whose name and email are the repository's
    /// current ones. `None` when Git reports neither a name nor an email;
    /// `Some(None)` when no profile matches.
    pub fn matched_profile(profiles: &ProfileMap, current: &GitConfig) -> (r: Option<Option<String>>)
        ensures
            (current.user_name@.len() == 0 && current.user_email@.len() == 0) <==> r is None,
            r matches Some(Some(k)) ==> profiles@.contains_key(k@) && matches_identity(
                profiles@[k@],
                *current,
            ),
            r matches Some(None) ==> forall|k: Seq<char>|
                #[trigger] profiles@.contains_key(k) ==> !matches_identity(profiles@[k], *current),
    {
        if current.user_name.as_str().is_empty() && current.user_email.as_str().is_empty() {
            return None;
        }
        let keys = profiles.keys();
        let mut i: usize = 0;
        while i < keys.len()
            invariant
                !(current.user_name@.len() == 0 && current.user_email@.len() == 0),
                i <= keys@.len(),
                forall|j: int| 0 <= j < keys@.len() ==> profiles@.contains_key(#[trigger] keys@[j]@),
                forall|j: int|
                    0 <= j < i ==> !matches_identity(#[trigger] profiles@[keys@[j]@], *current),
            decreases keys@.len() - i,
        {
            let k = &keys[i];
            match profiles.get(k.as_str()) {
                Some(p) => {
                    if p.name == current.user_name && p.email == current.user_email {
                        return Some(Some(k.clone()));
                    }
                },
                None => {},
            }
            i = i + 1;
        }
        proof {
            assert forall|k: Seq<char>| #[trigger] profiles@.contains_key(k) implies !matches_identity(
                profiles@[k],
                *current,
            ) by {
                let j = choose|j: int| 0 <= j < keys@.len() && #[trigger] keys@[j]@ == k;
                assert(!matches_identity(profiles@[keys@[j]@], *current));
            }
        }
        Some(None)
    }
}

/// How a host is shown when picking one for a profile: the alias, then the
/// host name, user and port where the block sets them.
pub open spec fn host_label_text(h: HostModel) -> Seq<char> {
    h.alias + (if h.hostname.len() > 0 {
        " ("@ + h.hostname + ")"@
    } else {
        Seq::empty()
    }) + (if h.user.len() > 0 {
        " - User: "@ + h.user
    } else {
        Seq::empty()
    }) + (if h.port.len() > 0 {
        " - Port: "@ + h.port
    } else {
        Seq::empty()
    })
}

pub fn host_label(h: &SshHostEntry) -> (r: String)
    ensures
        r@ == host_label_text(h@),
{
    let mut r = h.alias.clone();
    if !h.hostname.as_str().is_empty() {
        r.append(" (");
        r.append(h.hostname.as_str());
        r.append(")");
    }
    if !h.user.as_str().is_empty() {
        r.append(" - User: ");
        r.append(h.user.as_str());
    }
    if !h.port.as_str().is_empty() {
        r.append(" - Port: ");
        r.append(h.port.as_str());
    }
    proof {
        assert(r@ =~= host_label_text(h@));
    }
    r
}

/// The host to offer first when updating a profile: the one whose alias
/// is the profile's SSH host, else the first.
pub fn default_host_index(hosts: &Vec<SshHostEntry>, ssh_host: &str) -> (r: usize)
    ensures
        hosts@.len() == 0 ==> r == 0,
        (exists|i: int| 0 <= i < hosts@.len() && hosts@[i].alias@ == ssh_host@) ==> (r
            < hosts@.len() && hosts@[r as int].alias@ == ssh_host@ && forall|j: int|
            0 <= j < r ==> #[trigger] hosts@[j].alias@ != ssh_host@),
        !(exists|i: int| 0 <= i < hosts@.len() && hosts@[i].alias@ == ssh_host@) ==> r == 0,
{
    let wanted = ssh_host.to_owned();
    let mut i: usize = 0;
    while i < hosts.len()
        invariant
            wanted@ == ssh_host@,
            i <= hosts@.len(),
            forall|j: int| 0 <= j < i ==> #[trigger] hosts@[j].alias@ != ssh_host@,
        decreases hosts@.len() - i,
    {
        if hosts[i].alias == wanted {
            return i;
        }
        i = i + 1;
    }
    0
}

/// A file in `~/.ssh` offered as an identity: `id_*`, but not a `.pub`.
pub fn is_private_key_name(name: &str) -> (r: bool)
    ensures
        r == (has_prefix(name@, seq!['i', 'd', '_']) && !has_suffix(
            name@,
            seq!['.', 'p', 'u', 'b'],
        )),
{
    let v = chars_of(name);
    let n = v.len();
    let starts = matches_at(&v, 0, &['i', 'd', '_']);
    let ends = n >= 4 && matches_at(&v, n - 4, &['.', 'p', 'u', 'b']);
    proof {
        assert(['i', 'd', '_']@ =~= seq!['i', 'd', '_']);
        assert(['.', 'p', 'u', 'b']@ =~= seq!['.', 'p', 'u', 'b']);
    }
    starts && !ends
}

/// `list-ssh`.
pub struct ListSshCommand;

impl ListSshCommand {
    /// The hosts of the SSH client config text `text`, in order.
    pub fn execute(&self, text: &str) -> (r: Vec<SshHostEntry>)
        ensures
            entries_view(r@) == parse_hosts(text@),
    {
        parse_ssh_config(text)
    }
}

/// `add-ssh`.
pub struct AddSshCommand;

impl AddSshCommand {
    /// The block to append to the SSH client config for `entry`.
    pub fn execute(&self, entry: &SshHostEntry) -> (r: String)
        ensures
            r@ == render_host(entry@),
    {
        host_block(entry)
    }
}

/// A subcommand with its arguments.
pub enum Commands {
    Add(AddCommand),
    Delete(DeleteCommand),
    List(ListCommand),
    ListSsh(ListSshCommand),
    Show(ShowCommand),
    Switch(SwitchCommand),
    Update(UpdateCommand),
    AddSsh(AddSshCommand),
    SetDefault(SetDefaultCommand),
    UnsetDefault(UnsetDefaultCommand),
}

/// The command line.
pub struct Args {
    pub command: Commands,
}

} // verus!
