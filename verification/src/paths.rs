//! The well-known filesystem locations of the shell: the per-user
//! configuration directory, the candidate configuration files, and the
//! plugins directory. Only the platform lookup of the base directory is
//! outside work; every path built on it is verified.

use vstd::prelude::*;

use crate::error::SkadiError;

verus! {

/// Relies on `dirs::config_dir`: the platform's per-user configuration
/// directory, resolved from the environment — so nothing is assumed of the
/// result. A directory whose name is not valid UTF-8 counts as unresolved.
#[verifier::external_body]
fn user_config_dir() -> (r: Option<String>) {
    match dirs::config_dir() {
        Some(p) => match p.to_str() {
            Some(s) => Some(s.to_string()),
            None => None,
        },
        None => None,
    }
}

/// The filesystem locations of the shell's configuration.
pub struct Paths;

impl Paths {
    /// The shell's configuration directory under a given base directory.
    pub fn config_dir_from(base: String) -> (r: String)
        ensures
            r@ == base@ + "/skadi"@,
    {
        let mut b = base;
        b.append("/skadi");
        b
    }

    /// The shell's configuration directory: the platform configuration
    /// directory with the shell's own subdirectory appended. Fails when the
    /// platform directory cannot be resolved — at launch, a fatal error.
    pub fn config_dir() -> (r: Result<String, SkadiError>)
        ensures
            r matches Ok(p) ==> exists|base: Seq<char>| p@ == base + "/skadi"@,
            r matches Err(e) ==> e is PathNotFound,
    {
        match user_config_dir() {
            Some(base) => {
                let ghost gbase = base@;
                let p = Self::config_dir_from(base);
                proof {
                    assert(p@ == gbase + "/skadi"@);
                }
                Ok(p)
            },
            None => Err(SkadiError::PathNotFound),
        }
    }

    /// The candidate configuration files under a directory, in the order they
    /// are probed.
    pub fn possible_configs_from(dir: &String) -> (r: Vec<String>)
        ensures
            r@.len() == 3,
            r@[0]@ == dir@ + "/config.json"@,
            r@[1]@ == dir@ + "/config.jsonc"@,
            r@[2]@ == dir@ + "/config.json5"@,
    {
        let mut paths: Vec<String> = Vec::new();
        let mut a = dir.clone();
        a.append("/config.json");
        paths.push(a);
        let mut b = dir.clone();
        b.append("/config.jsonc");
        paths.push(b);
        let mut c = dir.clone();
        c.append("/config.json5");
        paths.push(c);
        paths
    }

    /// The candidate configuration files of the shell, in probe order: the
    /// `config.json`, `config.jsonc` and `config.json5` entries of the
    /// configuration directory.
    pub fn possible_configs() -> (r: Result<Vec<String>, SkadiError>)
        ensures
            r matches Ok(v) ==> v@.len() == 3 && exists|d: Seq<char>|
                {
                    &&& v@[0]@ == d + "/config.json"@
                    &&& v@[1]@ == d + "/config.jsonc"@
                    &&& v@[2]@ == d + "/config.json5"@
                },
            r matches Err(e) ==> e is PathNotFound,
    {
        match Self::config_dir() {
            Ok(dir) => {
                let v = Self::possible_configs_from(&dir);
                proof {
                    assert(v@[0]@ == dir@ + "/config.json"@ && v@[1]@ == dir@ + "/config.jsonc"@
                        && v@[2]@ == dir@ + "/config.json5"@);
                }
                Ok(v)
            },
            Err(e) => Err(e),
        }
    }

    /// The configuration file to load: the first candidate that exists, in
    /// probe order. When none exists, the error carries every candidate, so
    /// the diagnostic can name them all.
    pub fn first_existing_config(paths: Vec<String>, present: Vec<bool>) -> (r: Result<
        String,
        SkadiError,
    >)
        requires
            paths@.len() == present@.len(),
        ensures
            r is Err <==> (forall|i: int| 0 <= i < present@.len() ==> !present@[i]),
            r matches Ok(p) ==> exists|i: int|
                {
                    &&& 0 <= i < paths@.len()
                    &&& present@[i]
                    &&& p@ == paths@[i]@
                    &&& forall|j: int| 0 <= j < i ==> !present@[j]
                },
            r matches Err(e) ==> (e matches SkadiError::ConfigNotSpecified(v) && v == paths),
    {
        let mut i: usize = 0;
        while i < paths.len()
            invariant
                i <= paths@.len(),
                paths@.len() == present@.len(),
                forall|j: int| 0 <= j < i ==> !present@[j],
            decreases paths.len() - i,
        {
            if present[i] {
                return Ok(paths[i].clone());
            }
            i = i + 1;
        }
        Err(SkadiError::ConfigNotSpecified(paths))
    }

    /// The plugins directory under a given configuration directory.
    pub fn plugins_dir_from(config: &String) -> (r: String)
        ensures
            r@ == config@ + "/plugins"@,
    {
        let mut p = config.clone();
        p.append("/plugins");
        p
    }

    /// The plugins directory of the shell: the `plugins` entry of the
    /// configuration directory.
    pub fn plugins() -> (r: Result<String, SkadiError>)
        ensures
            r matches Ok(p) ==> exists|base: Seq<char>| p@ == base + "/skadi/plugins"@,
            r matches Err(e) ==> e is PathNotFound,
    {
        match Self::config_dir() {
            Ok(dir) => {
                let ghost gdir = dir@;
                let p = Self::plugins_dir_from(&dir);
                proof {
                    let base = choose|base: Seq<char>| gdir == base + "/skadi"@;
                    assert(p@ =~= base + "/skadi/plugins"@) by {
                        reveal_strlit("/skadi");
                        reveal_strlit("/plugins");
                        reveal_strlit("/skadi/plugins");
                        assert((base + "/skadi"@) + "/plugins"@ =~= base + ("/skadi"@
                            + "/plugins"@));
                        assert("/skadi"@ + "/plugins"@ =~= "/skadi/plugins"@);
                    }
                }
                Ok(p)
            },
            Err(e) => Err(e),
        }
    }
}

} // verus!
