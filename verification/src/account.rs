//! Account and profile resolution.
//!
//! Every command that touches Azure Storage names its profile explicitly; a missing or unknown
//! name is answered with the list of profiles that exist.
use vstd::prelude::*;
use crate::config::{config_find, sorted_profiles, Config, StorageProfile};
use crate::error::{Error, ErrorCode};
use crate::text::{owned, push_str, trim, trimmed};

verus! {

/// A profile chosen for a command, with the secret stored for it, if any.
#[derive(Debug)]
pub struct Resolved {
    pub name: String,
    pub profile: StorageProfile,
    pub secret: Option<String>,
}

impl Resolved {
    pub fn new(name: String, profile: StorageProfile, secret: Option<String>) -> (r: Resolved)
        ensures
            r.name == name,
            r.profile == profile,
            r.secret == secret,
    {
        Resolved { name, profile, secret }
    }

    pub fn account_name(&self) -> (r: &str)
        ensures
            r@ == self.profile.account_name@,
    {
        self.profile.account_name.as_str()
    }

    pub fn container_name(&self) -> (r: &str)
        ensures
            r@ == self.profile.container_name@,
    {
        self.profile.container_name.as_str()
    }

    pub fn endpoint(&self) -> (r: Option<&str>)
        ensures
            match self.profile.endpoint {
                Some(e) => r matches Some(s) && s@ == e@,
                None => r is None,
            },
    {
        match &self.profile.endpoint {
            Some(e) => Some(e.as_str()),
            None => None,
        }
    }
}

/// `name (account: A, container: C)` for one profile.
pub open spec fn profile_line(kv: (Seq<char>, StorageProfile)) -> Seq<char> {
    kv.0 + " (account: "@ + kv.1.account_name@ + ", container: "@ + kv.1.container_name@ + ")"@
}

/// The lines of `o`, separated by `", "`.
pub open spec fn joined_lines(o: Seq<(Seq<char>, StorageProfile)>) -> Seq<char>
    decreases o.len(),
{
    if o.len() == 0 {
        Seq::empty()
    } else if o.len() == 1 {
        profile_line(o[0])
    } else {
        joined_lines(o.drop_last()) + ", "@ + profile_line(o.last())
    }
}

/// What is said of the profiles `o` (listed in that order) when a profile cannot be resolved.
pub open spec fn describe_text(o: Seq<(Seq<char>, StorageProfile)>) -> Seq<char> {
    if o.len() == 0 {
        "No storage profiles are configured yet. Run 'storage login <name>' or 'storage accounts add <name>'."@
    } else {
        "Configured profiles: "@ + joined_lines(o)
    }
}

/// The profiles of `config`, sorted by name, in one sentence.
pub fn describe(config: &Config) -> (r: String)
    ensures
        r@ == describe_text(sorted_profiles(*config)),
{
    let profiles = config.sorted();
    let ghost o = crate::config::pairs_view(profiles@);
    if profiles.len() == 0 {
        let r = owned(
            "No storage profiles are configured yet. Run 'storage login <name>' or 'storage accounts add <name>'.",
        );
        assert(r@ == describe_text(o));
        return r;
    }
    let mut s = owned("Configured profiles: ");
    let mut i: usize = 0;
    while i < profiles.len()
        invariant
            i <= profiles.len(),
            profiles.len() > 0,
            o == crate::config::pairs_view(profiles@),
            s@ == "Configured profiles: "@ + joined_lines(o.take(i as int)),
        decreases profiles.len() - i,
    {
        let kv = profiles[i];
        assert(o[i as int] == (kv.0@, *kv.1));
        assert(o.take(i + 1).drop_last() =~= o.take(i as int));
        if i > 0 {
            push_str(&mut s, ", ");
        }
        push_str(&mut s, kv.0.as_str());
        push_str(&mut s, " (account: ");
        push_str(&mut s, kv.1.account_name.as_str());
        push_str(&mut s, ", container: ");
        push_str(&mut s, kv.1.container_name.as_str());
        push_str(&mut s, ")");
        proof {
            if i == 0 {
                assert(o.take(1) =~= seq![o[0]]);
            }
        }
        assert(s@ =~= "Configured profiles: "@ + joined_lines(o.take(i + 1)));
        i = i + 1;
    }
    assert(o.take(profiles.len() as int) =~= o);
    assert(s@ == describe_text(o));
    s
}

/// The name asked for, trimmed; absent when none was given or it is blank.
pub open spec fn requested_name(requested: Option<&str>) -> Option<Seq<char>> {
    match requested {
        Some(s) => if trimmed(s@).len() > 0 {
            Some(trimmed(s@))
        } else {
            None
        },
        None => None,
    }
}

/// Picks the profile named `requested` (trimmed, ignoring ASCII case) from `config`.
///
/// A missing or blank name, or a name no profile has, is a `no_account` error whose detail
/// lists the profiles there are and whose fix is `storage accounts list`.
pub fn resolve(config: &Config, requested: Option<&str>) -> (r: Result<(String, StorageProfile), Error>)
    ensures
        match requested_name(requested) {
            None => r matches Err(e) && e.code == ErrorCode::NoAccount && e.message@
                == "No storage profile specified. Pass --account <name> or <profile>."@,
            Some(name) => match config_find(*config, name) {
                Some(kv) => r matches Ok(found) && found.0@ == kv.0 && found.1 == kv.1,
                None => r matches Err(e) && e.code == ErrorCode::NoAccount && e.message@
                    == "No storage profile named '"@ + name + "'."@,
            },
        },
        r matches Err(e) ==> (e.fix matches Some(f) && f@ == "storage accounts list"@) && (e.detail matches Some(
            d,
        ) && d@ == describe_text(sorted_profiles(*config))),
{
    let name: &str = match requested {
        Some(s) => trim(s),
        None => "",
    };
    if requested.is_none() || name.unicode_len() == 0 {
        return Err(
            Error::new(
                ErrorCode::NoAccount,
                owned("No storage profile specified. Pass --account <name> or <profile>."),
            ).detail(describe(config)).fix(owned("storage accounts list")),
        );
    }
    match config.find(name) {
        Some((key, profile)) => Ok((key.clone(), profile.clone())),
        None => {
            let mut msg = owned("No storage profile named '");
            push_str(&mut msg, name);
            push_str(&mut msg, "'.");
            Err(
                Error::new(ErrorCode::NoAccount, msg).detail(describe(config)).fix(
                    owned("storage accounts list"),
                ),
            )
        },
    }
}

} // verus!
