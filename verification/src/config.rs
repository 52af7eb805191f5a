use vstd::prelude::*;
use vstd::string::StringExecFns;

use crate::text::chars_of;

verus! {

/// Credentials for both platforms, as read from the configuration file.
#[derive(Debug, Clone)]
pub struct Config {
    pub dev_to: DevToConfig,
    pub medium: MediumConfig,
}

/// dev.to platform configuration.
#[derive(Debug, Clone)]
pub struct DevToConfig {
    pub api_key: String,
}

/// Medium platform configuration.
#[derive(Debug, Clone)]
pub struct MediumConfig {
    pub access_token: String,
}

/// Whether the needle occurs in the haystack.
pub open spec fn contains_seq(h: Seq<char>, n: Seq<char>) -> bool {
    exists|i: int| 0 <= i && i + n.len() <= h.len() && (#[trigger] h.subrange(i, i + n.len())) == n
}

/// Whether the characters of the needle occur in the haystack.
fn contains_chars(h: &Vec<char>, n: &Vec<char>) -> (r: bool)
    ensures
        r == contains_seq(h@, n@),
{
    if n.len() > h.len() {
        proof {
            assert(!contains_seq(h@, n@));
        }
        return false;
    }
    let mut i: usize = 0;
    while i <= h.len() - n.len()
        invariant
            n.len() <= h.len(),
            i <= h.len() - n.len() + 1,
            forall|p: int| 0 <= p < i ==> (#[trigger] h@.subrange(p, p + n@.len())) != n@,
        decreases h.len() - i,
    {
        let mut k: usize = 0;
        let mut all_eq = true;
        while k < n.len()
            invariant
                k <= n.len(),
                i + n.len() <= h.len(),
                all_eq == (forall|q: int| 0 <= q < k ==> h@[i + q] == n@[q]),
            decreases n.len() - k,
        {
            if h[i + k] != n[k] {
                all_eq = false;
                proof {
                    assert(h@[i + k as int] != n@[k as int]);
                }
                k = n.len();
            } else {
                k = k + 1;
            }
        }
        if all_eq {
            proof {
                assert(h@.subrange(i as int, i + n@.len()) =~= n@);
            }
            return true;
        }
        proof {
            if h@.subrange(i as int, i + n@.len()) == n@ {
                assert(forall|q: int|
                    0 <= q < n@.len() ==> h@.subrange(i as int, i + n@.len())[q] == n@[q]);
                assert(forall|q: int| 0 <= q < n@.len() ==> h@[i + q] == n@[q]);
                assert(false);
            }
        }
        i = i + 1;
    }
    proof {
        assert forall|p: int| !(0 <= p && p + n@.len() <= h@.len() && (#[trigger] h@.subrange(
            p,
            p + n@.len(),
        )) == n@) by {
            if 0 <= p && p + n@.len() <= h@.len() {
                assert(p < i);
            }
        }
    }
    false
}

/// Whether a dev.to API key is a placeholder or empty rather than a
/// configured credential.
pub open spec fn devto_key_unconfigured(k: Seq<char>) -> bool {
    ||| contains_seq(k, "your_dev_to_api_key"@)
    ||| k.len() == 0
    ||| contains_seq(k, "INSERT"@)
}

/// Whether a Medium access token is a placeholder or empty rather than a
/// configured credential.
pub open spec fn medium_token_unconfigured(t: Seq<char>) -> bool {
    ||| contains_seq(t, "your_medium_access_token"@)
    ||| t.len() == 0
    ||| contains_seq(t, "INSERT"@)
}

pub open spec fn devto_unconfigured_message() -> Seq<char> {
    "dev.to API key is not configured. Please edit the config file and add your API key.\nGet your API key from: https://dev.to/settings/extensions"@
}

pub open spec fn medium_unconfigured_message() -> Seq<char> {
    "Medium access token is not configured. Please edit the config file and add your access token.\nGet your token from: https://medium.com/me/settings/security"@
}

impl Config {
    /// Check that neither credential is empty or still a placeholder;
    /// the dev.to key is checked first.
    pub fn validate(&self) -> (r: Result<(), String>)
        ensures
            (r is Ok) == (!devto_key_unconfigured(self.dev_to.api_key@)
                && !medium_token_unconfigured(self.medium.access_token@)),
            r matches Err(e) ==> e@ == (if devto_key_unconfigured(self.dev_to.api_key@) {
                devto_unconfigured_message()
            } else {
                medium_unconfigured_message()
            }),
    {
        let key = chars_of(self.dev_to.api_key.as_str());
        let placeholder_key = chars_of("your_dev_to_api_key");
        let insert_marker = chars_of("INSERT");
        if contains_chars(&key, &placeholder_key) || key.len() == 0 || contains_chars(
            &key,
            &insert_marker,
        ) {
            let mut m = String::new();
            m.append(
                "dev.to API key is not configured. Please edit the config file and add your API key.\nGet your API key from: https://dev.to/settings/extensions",
            );
            return Err(m);
        }
        let token = chars_of(self.medium.access_token.as_str());
        let placeholder_token = chars_of("your_medium_access_token");
        if contains_chars(&token, &placeholder_token) || token.len() == 0 || contains_chars(
            &token,
            &insert_marker,
        ) {
            let mut m = String::new();
            m.append(
                "Medium access token is not configured. Please edit the config file and add your access token.\nGet your token from: https://medium.com/me/settings/security",
            );
            return Err(m);
        }
        Ok(())
    }

    /// The contents of a freshly initialized configuration file: both
    /// credentials start as placeholders.
    pub fn example_config() -> (r: Config)
        ensures
            r.dev_to.api_key@ == "your_dev_to_api_key_here"@,
            r.medium.access_token@ == "your_medium_access_token_here"@,
    {
        let mut key = String::new();
        key.append("your_dev_to_api_key_here");
        let mut token = String::new();
        token.append("your_medium_access_token_here");
        Config {
            dev_to: DevToConfig { api_key: key },
            medium: MediumConfig { access_token: token },
        }
    }
}

} // verus!
