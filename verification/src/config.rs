//! Configuration: repositories and the directories the system works in.
//!
//! Values are merged in a fixed order: environment overrides beat the
//! configuration file, which beats the defaults.  Repository names must
//! be unique; a duplicate is a fatal configuration error.

use vstd::prelude::*;

use crate::error::SoarError;

verus! {

/// One remote repository.
pub struct Repository {
    /// The repository's unique logical name.
    pub name: String,
    /// Its base URL.
    pub url: String,
    /// The metadata file name; `metadata.json` when unset.
    pub metadata: Option<String>,
    /// Download sources per collection key.
    pub sources: Vec<(String, String)>,
}

impl Repository {
    /// The repository's cache directory under the registry base.
    pub fn get_path(&self, registry_base: &str) -> (r: String)
        ensures
            r@ == registry_base@ + seq!['/'] + self.name@,
    {
        let mut r = String::from_str(registry_base);
        r.push('/');
        r.append(self.name.as_str());
        r
    }
}

/// The application's configuration.
pub struct Config {
    /// The directory all app data lives under.
    pub soar_root: String,
    /// The launcher symlink directory; `<root>/bin` when unset.
    pub soar_bin: Option<String>,
    /// The cache directory; `<root>/cache` when unset.
    pub soar_cache: Option<String>,
    /// The remote repositories, by unique name.
    pub repositories: Vec<Repository>,
    /// Whether downloads run in parallel.
    pub parallel: Option<bool>,
    /// How many downloads may run at once.
    pub parallel_limit: Option<u32>,
    /// How many search results to display.
    pub search_limit: Option<u32>,
}

/// Whether two repositories of `rs` share a name.
pub open spec fn has_duplicate_repos(rs: Seq<Repository>) -> bool {
    exists|i: int, j: int|
        #![trigger rs[i], rs[j]]
        0 <= i < j < rs.len() && rs[i].name@ == rs[j].name@
}

fn repos_have_duplicate(rs: &Vec<Repository>) -> (r: bool)
    ensures
        r == has_duplicate_repos(rs@),
{
    let mut i: usize = 0;
    while i < rs.len()
        invariant
            i <= rs@.len(),
            forall|a: int, b: int|
                #![trigger rs@[a], rs@[b]]
                0 <= a < b < rs@.len() && a < i ==> rs@[a].name@ != rs@[b].name@,
        decreases rs@.len() - i,
    {
        let mut j: usize = i + 1;
        while j < rs.len()
            invariant
                i < j <= rs@.len() || (i + 1 == j && j > rs@.len()),
                i < rs@.len(),
                forall|b: int| i < b < j ==> rs@[i as int].name@ != (#[trigger] rs@[b]).name@,
            decreases rs@.len() - j,
        {
            if rs[i].name.eq(&rs[j].name) {
                proof {
                    assert(has_duplicate_repos(rs@)) by {
                        assert(rs@[i as int].name@ == rs@[j as int].name@);
                    }
                }
                return true;
            }
            j += 1;
        }
        i += 1;
    }
    proof {
        if has_duplicate_repos(rs@) {
            let (a, b) = choose|a: int, b: int|
                #![trigger rs@[a], rs@[b]]
                0 <= a < b < rs@.len() && rs@[a].name@ == rs@[b].name@;
            assert(rs@[a].name@ != rs@[b].name@);
        }
    }
    false
}

/// Merges a loaded configuration with environment overrides.
///
/// `SOAR_ROOT` overrides the root; `SOAR_BIN` and `SOAR_CACHE` override
/// their directories, which otherwise fall back to the file's values and
/// then to `<root>/bin` and `<root>/cache`.  Duplicate repository names
/// are a fatal configuration error.
pub fn finalize_config(
    base: Config,
    env_root: Option<String>,
    env_bin: Option<String>,
    env_cache: Option<String>,
) -> (r: Result<Config, SoarError>)
    ensures
        match r {
            Ok(c) => {
                &&& !has_duplicate_repos(base.repositories@)
                &&& c.soar_root@ == (match env_root {
                    Some(v) => v@,
                    None => base.soar_root@,
                })
                &&& (c.soar_bin matches Some(b) && b@ == (match env_bin {
                    Some(v) => v@,
                    None => match base.soar_bin {
                        Some(fb) => fb@,
                        None => (match env_root {
                            Some(v) => v@,
                            None => base.soar_root@,
                        }) + "/bin"@,
                    },
                }))
                &&& (c.soar_cache matches Some(cc) && cc@ == (match env_cache {
                    Some(v) => v@,
                    None => match base.soar_cache {
                        Some(fc) => fc@,
                        None => (match env_root {
                            Some(v) => v@,
                            None => base.soar_root@,
                        }) + "/cache"@,
                    },
                }))
                &&& c.repositories == base.repositories
                &&& c.parallel == base.parallel
                &&& c.parallel_limit == base.parallel_limit
                &&& c.search_limit == base.search_limit
            },
            Err(e) => has_duplicate_repos(base.repositories@) && e == SoarError::Config,
        },
{
    if repos_have_duplicate(&base.repositories) {
        return Err(SoarError::Config);
    }
    let root: String = match env_root {
        Some(v) => v,
        None => base.soar_root.clone(),
    };
    let bin: String = match env_bin {
        Some(v) => v,
        None => match &base.soar_bin {
            Some(fb) => fb.clone(),
            None => {
                let mut b = root.clone();
                b.append("/bin");
                b
            },
        },
    };
    let cache: String = match env_cache {
        Some(v) => v,
        None => match &base.soar_cache {
            Some(fc) => fc.clone(),
            None => {
                let mut c = root.clone();
                c.append("/cache");
                c
            },
        },
    };
    Ok(
        Config {
            soar_root: root,
            soar_bin: Some(bin),
            soar_cache: Some(cache),
            repositories: base.repositories,
            parallel: base.parallel,
            parallel_limit: base.parallel_limit,
            search_limit: base.search_limit,
        },
    )
}

impl Config {
    /// The launcher directory: the configured one, else `<root>/bin`.
    pub fn get_bin_path(&self) -> (r: String)
        ensures
            r@ == (match self.soar_bin {
                Some(b) => b@,
                None => self.soar_root@ + "/bin"@,
            }),
    {
        match &self.soar_bin {
            Some(b) => b.clone(),
            None => {
                let mut r = self.soar_root.clone();
                r.append("/bin");
                r
            },
        }
    }

    /// The cache directory: the configured one, else `<root>/cache`.
    pub fn get_cache_path(&self) -> (r: String)
        ensures
            r@ == (match self.soar_cache {
                Some(c) => c@,
                None => self.soar_root@ + "/cache"@,
            }),
    {
        match &self.soar_cache {
            Some(c) => c.clone(),
            None => {
                let mut r = self.soar_root.clone();
                r.append("/cache");
                r
            },
        }
    }

    /// The database directory: `<root>/db`.
    pub fn get_db_path(&self) -> (r: String)
        ensures
            r@ == self.soar_root@ + "/db"@,
    {
        let mut r = self.soar_root.clone();
        r.append("/db");
        r
    }

    /// The packages directory: `<root>/packages`.
    pub fn get_packages_path(&self) -> (r: String)
        ensures
            r@ == self.soar_root@ + "/packages"@,
    {
        let mut r = self.soar_root.clone();
        r.append("/packages");
        r
    }

    /// The repositories cache directory: `<root>/repositories`.
    pub fn get_repositories_path(&self) -> (r: String)
        ensures
            r@ == self.soar_root@ + "/repositories"@,
    {
        let mut r = self.soar_root.clone();
        r.append("/repositories");
        r
    }
}

/// The loader of a repository's cached catalog metadata.
pub struct RegistryLoader;

impl RegistryLoader {
    /// A loader.
    pub fn new() -> (r: RegistryLoader) {
        RegistryLoader
    }

    /// Whether the cached catalog must be fetched again: a remote
    /// checksum was obtained and differs from the locally recorded one.
    pub fn needs_refetch(&self, remote: &Option<Vec<u8>>, local: &Vec<u8>) -> (r: bool)
        ensures
            r == (remote matches Some(c) && c@ != local@),
    {
        match remote {
            Some(c) => !eq_bytes(c, local),
            None => false,
        }
    }
}

fn eq_bytes(a: &Vec<u8>, b: &Vec<u8>) -> (r: bool)
    ensures
        r == (a@ == b@),
{
    if a.len() != b.len() {
        return false;
    }
    let mut i: usize = 0;
    while i < a.len()
        invariant
            i <= a@.len() == b@.len(),
            forall|j: int| 0 <= j < i ==> a@[j] == b@[j],
        decreases a@.len() - i,
    {
        if a[i] != b[i] {
            return false;
        }
        i += 1;
    }
    proof {
        assert(a@ =~= b@);
    }
    true
}

} // verus!
