//! The configuration: which symlinks, tools and versions to check, and where
//! the configuration file is looked for.
//!
//! The file is looked for in this order:
//! 1. the path given on the command line;
//! 2. `dotctor.toml` in the current directory;
//! 3. `~/.dotctor.toml`.
use vstd::prelude::*;

use crate::checks::join2;
use crate::string_map::StringMap;

verus! {

/// The `[tools]` table.
pub struct ToolsConfig {
    pub required: Vec<String>,
}

/// The whole configuration file.
pub struct Config {
    /// `[symlinks]`: target -> source.
    pub symlinks: StringMap,
    pub tools: ToolsConfig,
    /// `[versions]`: command -> requirement such as `>= 22`.
    pub versions: StringMap,
}

/// `base` joined with the relative path `name`, as `Path::join` does it: a
/// `/` is put between them unless `base` is empty or already ends in `/`.
pub open spec fn joined_path(base: Seq<char>, name: Seq<char>) -> Seq<char> {
    if base.len() == 0 || base.last() == '/' {
        base + name
    } else {
        base + "/"@ + name
    }
}

/// The home directory: `$HOME` when it is set, else `/`.
pub open spec fn home_or_root(home: Option<Seq<char>>) -> Seq<char> {
    match home {
        Some(h) => h,
        None => "/"@,
    }
}

/// The places where a configuration file is looked for when none is
/// given, in order, for the value of `$HOME` (`None` when unset).
pub fn config_candidates(home: Option<&str>) -> (r: Vec<String>)
    ensures
        r@.len() == 2,
        r@[0]@ == "dotctor.toml"@,
        r@[1]@ == joined_path(
            home_or_root(
                match home {
                    Some(h) => Some(h@),
                    None => None,
                },
            ),
            ".dotctor.toml"@,
        ),
{
    let base: &str = match home {
        Some(h) => h,
        None => "/",
    };
    let n = base.unicode_len();
    let second = if n == 0 || base.get_char(n - 1) == '/' {
        join2(base, ".dotctor.toml")
    } else {
        let mut s = join2(base, "/");
        s.append(".dotctor.toml");
        s
    };
    let mut r: Vec<String> = Vec::new();
    r.push(String::from_str("dotctor.toml"));
    r.push(second);
    r
}

/// The first of `candidates` that exists, given whether each exists; an
/// error that says where to create one when none does.
pub fn find_config(candidates: &Vec<String>, exists: &Vec<bool>) -> (r: Result<String, String>)
    requires
        candidates@.len() == exists@.len(),
    ensures
        r is Ok <==> exists@.contains(true),
        r matches Ok(p) ==> exists|i: int|
            0 <= i < exists@.len() && exists@[i] && (forall|j: int| 0 <= j < i ==> !exists@[j])
                && p@ == #[trigger] candidates@[i]@,
        r matches Err(e) ==> e@ == "No config file found. Create dotctor.toml or ~/.dotctor.toml"@,
{
    let n = candidates.len();
    let mut i: usize = 0;
    while i < n
        invariant
            n == candidates@.len(),
            n == exists@.len(),
            i <= n,
            forall|j: int| 0 <= j < i ==> !exists@[j],
        decreases n - i,
    {
        if exists[i] {
            let p = candidates[i].clone();
            assert(p@ == candidates@[i as int]@);
            return Ok(p);
        }
        i = i + 1;
    }
    proof {
        if exists@.contains(true) {
            let k = choose|k: int| 0 <= k < exists@.len() && exists@[k] == true;
            assert(!exists@[k]);
        }
    }
    Err(String::from_str("No config file found. Create dotctor.toml or ~/.dotctor.toml"))
}

/// A configuration path given on the command line: kept when it exists,
/// else an error that names it.
pub fn explicit_config(path: &str, exists: bool) -> (r: Result<String, String>)
    ensures
        exists ==> (r matches Ok(p) && p@ == path@),
        !exists ==> (r matches Err(e) && e@ == "Config file not found: "@ + path@),
{
    if exists {
        Ok(String::from_str(path))
    } else {
        Err(join2("Config file not found: ", path))
    }
}

} // verus!
