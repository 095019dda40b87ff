//! Configuration values and the rules for locating the configuration file.
//!
//! The configuration itself is loaded and validated outside the library and
//! handed in as plain values; the temperature arrives as already-rendered
//! numeric text because it is embedded verbatim into the request payload.
//! Locating the file needs the file system only for existence probes, so the
//! caller supplies those as a record of plain answers and the choice itself
//! is verified.

use vstd::prelude::*;
use vstd::string::StringExecFns;
use crate::chars::chars_to_string;
use crate::chars::str_to_chars;

verus! {

/// The validated configuration record: credential, model identifier and
/// generation parameters, immutable for the process lifetime.
pub struct Config {
    pub api_key: String,
    pub model: String,
    pub max_tokens: i64,
    /// The sampling temperature as numeric text, embedded verbatim.
    pub temperature: String,
}

/// Where the configuration file should be looked for.
#[derive(Debug, Clone, PartialEq, Eq)]
pub enum ConfigLocation {
    /// Probe the default locations, old organization name first.
    Auto,
    /// An explicit path, used as given.
    Path(String),
    /// A bare configuration name, resolved inside the default directory.
    Named(String),
}

/// Some character of `s` is `c`.
pub open spec fn has_char(s: Seq<char>, c: char) -> bool {
    exists|i: int| 0 <= i < s.len() && s[i] == c
}

fn contains_char(cs: &Vec<char>, c: char) -> (r: bool)
    ensures
        r == has_char(cs@, c),
{
    let mut i: usize = 0;
    while i < cs.len()
        invariant
            i <= cs@.len(),
            forall|j: int| 0 <= j < i ==> cs@[j] != c,
        decreases cs@.len() - i,
    {
        if cs[i] == c {
            return true;
        }
        i = i + 1;
    }
    false
}

impl ConfigLocation {
    /// Classifies a command-line value: empty means probe automatically, a
    /// bare name without a dot is a named configuration, anything else is a
    /// path.
    pub fn from_str(s: &str) -> (r: ConfigLocation)
        ensures
            s@.len() == 0 ==> r is Auto,
            s@.len() > 0 && !has_char(s@, '.') ==> (r matches ConfigLocation::Named(n) && n@
                == s@),
            s@.len() > 0 && has_char(s@, '.') ==> (r matches ConfigLocation::Path(p) && p@ == s@),
    {
        let cs = str_to_chars(s);
        if !contains_char(&cs, '.') && !s.is_empty() {
            ConfigLocation::Named(String::from_str(s))
        } else if !s.is_empty() {
            ConfigLocation::Path(String::from_str(s))
        } else {
            ConfigLocation::Auto
        }
    }
}

/// Position of the last dot in `s`, or -1 if there is none.
pub open spec fn last_dot(s: Seq<char>) -> int
    decreases s.len(),
{
    if s.len() == 0 {
        -1
    } else if s.last() == '.' {
        s.len() - 1
    } else {
        last_dot(s.drop_last())
    }
}

/// The file name `name` with its extension replaced by `toml`, or the fixed
/// default file name when no name is given.
pub open spec fn config_file_name(name: Option<Seq<char>>) -> Seq<char> {
    match name {
        Some(n) => {
            let stem = if last_dot(n) >= 0 {
                n.take(last_dot(n))
            } else {
                n
            };
            stem + ".toml"@
        },
        None => "ata.toml"@,
    }
}

/// The default configuration path: the file name joined onto the
/// configuration directory.
pub open spec fn default_path_text(name: Option<Seq<char>>, config_dir: Seq<char>) -> Seq<char> {
    config_dir + seq!['/'] + config_file_name(name)
}

proof fn lemma_last_dot(s: Seq<char>)
    ensures
        last_dot(s) >= 0 ==> last_dot(s) < s.len() && s[last_dot(s)] == '.' && forall|j: int|
            last_dot(s) < j < s.len() ==> s[j] != '.',
        last_dot(s) < 0 ==> forall|j: int| 0 <= j < s.len() ==> s[j] != '.',
        last_dot(s) >= -1,
    decreases s.len(),
{
    if s.len() == 0 {
    } else if s.last() == '.' {
    } else {
        lemma_last_dot(s.drop_last());
        assert(forall|j: int| 0 <= j < s.len() - 1 ==> s[j] == s.drop_last()[j]);
    }
}

/// The file name for a named configuration, the extension set to `toml`, or
/// the fixed default name.
pub fn config_file(name: Option<&str>) -> (r: String)
    ensures
        r@ == config_file_name(
            match name {
                Some(n) => Some(n@),
                None => None,
            },
        ),
{
    match name {
        Some(n) => {
            let cs = str_to_chars(n);
            let mut k: usize = cs.len();
            while k > 0 && cs[k - 1] != '.'
                invariant
                    k <= cs@.len(),
                    cs@ == n@,
                    forall|j: int| k <= j < cs@.len() ==> cs@[j] != '.',
                decreases k,
            {
                k = k - 1;
            }
            proof {
                lemma_last_dot(n@);
                if k > 0 {
                    assert(cs@[k - 1] == '.');
                    let ld = last_dot(n@);
                    if ld < k - 1 {
                        assert(n@[k - 1] != '.');
                    } else if ld > k - 1 {
                        assert(n@[ld] != '.');
                    }
                    assert(ld == k - 1);
                } else {
                    let ld = last_dot(n@);
                    if ld >= 0 {
                        assert(n@[ld] != '.');
                    }
                }
            }
            let mut out: Vec<char> = Vec::new();
            let end: usize = if k > 0 {
                k - 1
            } else {
                cs.len()
            };
            let mut i: usize = 0;
            while i < end
                invariant
                    end <= cs@.len(),
                    i <= end,
                    cs@ == n@,
                    out@ == n@.take(i as int),
                decreases end - i,
            {
                proof {
                    assert(n@.take(i as int).push(n@[i as int]) =~= n@.take(i as int + 1));
                }
                let c = cs[i];
                out.push(c);
                i = i + 1;
            }
            let mut ext = str_to_chars(".toml");
            out.append(&mut ext);
            proof {
                if k > 0 {
                    assert(out@ =~= n@.take(last_dot(n@)) + ".toml"@);
                } else {
                    assert(n@.take(n@.len() as int) =~= n@);
                    assert(out@ =~= n@ + ".toml"@);
                }
            }
            chars_to_string(&out)
        },
        None => String::from_str("ata.toml"),
    }
}

/// The default configuration path inside the given configuration directory.
pub fn default_path(name: Option<&str>, config_dir: &str) -> (r: String)
    ensures
        r@ == default_path_text(
            match name {
                Some(n) => Some(n@),
                None => None,
            },
            config_dir@,
        ),
{
    let file = config_file(name);
    let mut out = str_to_chars(config_dir);
    out.push('/');
    let mut fc = str_to_chars(file.as_str());
    out.append(&mut fc);
    proof {
        assert(out@ =~= config_dir@ + seq!['/'] + file@);
    }
    chars_to_string(&out)
}

/// What the file-system probes answered, and where the configuration
/// directories are; supplied by the caller, which alone touches the disk.
pub struct PathProbe {
    /// Whether the default file under the old organization name exists.
    pub old_default_exists: bool,
    /// Whether the fixed default file name exists in the working directory.
    pub local_exists: bool,
    /// The configuration directory under the old organization name.
    pub old_config_dir: String,
    /// The configuration directory under the new organization name.
    pub new_config_dir: String,
}

/// Which path a location resolves to, given the probe answers.
pub open spec fn location_text(loc: ConfigLocation, old_org: bool, probe: PathProbe) -> Seq<
    char,
> {
    match loc {
        ConfigLocation::Auto => {
            if probe.old_default_exists {
                default_path_text(None, probe.old_config_dir@)
            } else {
                default_path_text(None, probe.new_config_dir@)
            }
        },
        ConfigLocation::Path(p) => p@,
        ConfigLocation::Named(name) => {
            let dir = if old_org {
                probe.old_config_dir@
            } else {
                probe.new_config_dir@
            };
            if name@ == "default"@ {
                if probe.local_exists {
                    "ata.toml"@
                } else {
                    default_path_text(None, dir)
                }
            } else {
                default_path_text(Some(name@), dir)
            }
        },
    }
}

impl ConfigLocation {
    /// Resolves this location to a path: an explicit path is used as given;
    /// the automatic probe prefers the old organization's default file and
    /// falls back to the new one; the name `default` prefers a local file
    /// and otherwise the default directory for `old_org`; any other name is
    /// resolved inside that directory with its extension set to `toml`.
    pub fn location(&self, old_org: bool, probe: &PathProbe) -> (r: String)
        ensures
            r@ == location_text(*self, old_org, *probe),
    {
        match self {
            ConfigLocation::Auto => {
                if probe.old_default_exists {
                    default_path(None, probe.old_config_dir.as_str())
                } else {
                    default_path(None, probe.new_config_dir.as_str())
                }
            },
            ConfigLocation::Path(p) => p.clone(),
            ConfigLocation::Named(name) => {
                let dir = if old_org {
                    probe.old_config_dir.as_str()
                } else {
                    probe.new_config_dir.as_str()
                };
                let default_name = String::from_str("default");
                if *name == default_name {
                    if probe.local_exists {
                        String::from_str("ata.toml")
                    } else {
                        default_path(None, dir)
                    }
                } else {
                    default_path(Some(name.as_str()), dir)
                }
            },
        }
    }
}

} // verus!
