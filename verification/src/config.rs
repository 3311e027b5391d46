//! Settings: the registry, the cache and `node_modules` directories, the
//! number of parallel downloads and strict mode, each with its default,
//! and the rules of the `config get/set/delete` commands.
use vstd::prelude::*;
use crate::downloader::{default_cache_dir, default_cache_dir_spec, opt_bytes, system_cache_dir};
use vstd::utf8::encode_utf8;
use crate::error::{CNodeError, ErrorKind};
use crate::registry::default_registry_url;
use crate::text::{
    chars_of, concat, decimal_chars, decimal_text, join_bytes, join_path_bytes, lemma_decimal_text_parses, owned,
    parse_usize, parse_usize_spec, str_eq, string_from_chars, text_bytes,
};

verus! {

/// `dirs::home_dir`: the user's home directory, if known, as the bytes of
/// its path (`OsString::into_encoded_bytes`, so that no name is altered).
/// It depends on the environment, so nothing is said of it.
#[verifier::external_body]
fn system_home_dir() -> (d: Option<Vec<u8>>) {
    match dirs::home_dir() {
        Some(p) => Some(p.into_os_string().into_encoded_bytes()),
        None => None,
    }
}

/// What `String::from_utf8_lossy` makes of a byte sequence.
pub uninterp spec fn lossy_text_of(bytes: Seq<u8>) -> Seq<char>;

/// `String::from_utf8_lossy`: the text of a path's bytes, each invalid
/// sequence replaced by U+FFFD. The contract names the result, and states
/// what the documentation promises: valid UTF-8 is read unchanged.
#[verifier::external_body]
fn lossy_text(bytes: &[u8]) -> (s: String)
    ensures
        s@ == lossy_text_of(bytes@),
        vstd::utf8::valid_utf8(bytes@) ==> encode_utf8(s@) == bytes@,
{
    String::from_utf8_lossy(bytes).into_owned()
}

/// The settings of the package manager; a missing setting takes its
/// default.
pub struct Config {
    pub registry: Option<String>,
    pub cache_dir: Option<String>,
    pub node_modules_dir: Option<String>,
    pub lock_file: Option<String>,
    pub strict: Option<bool>,
    pub parallel_downloads: Option<usize>,
}

/// The registry a configuration uses.
pub open spec fn registry_of(c: Config) -> Seq<char> {
    match c.registry {
        Some(r) => r@,
        None => default_registry_url(),
    }
}

/// The cache directory a configuration uses, as the bytes of its path,
/// given the system's cache directory.
pub open spec fn cache_dir_of(c: Config, system: Option<Seq<u8>>) -> Seq<u8> {
    match c.cache_dir {
        Some(d) => encode_utf8(d@),
        None => default_cache_dir_spec(system),
    }
}

/// The `node_modules` directory a configuration uses.
pub open spec fn node_modules_dir_of(c: Config) -> Seq<char> {
    match c.node_modules_dir {
        Some(d) => d@,
        None => "node_modules"@,
    }
}

/// The number of parallel downloads a configuration allows.
pub open spec fn parallel_downloads_of(c: Config) -> usize {
    match c.parallel_downloads {
        Some(n) => n,
        None => 4,
    }
}

/// Whether a configuration asks for strict mode.
pub open spec fn strict_of(c: Config) -> bool {
    match c.strict {
        Some(b) => b,
        None => false,
    }
}

/// Where the configuration file lives, as the bytes of its path, given the
/// home directory: `.cnpmrc` in it, or in the working directory when there
/// is none.
pub open spec fn config_path_spec(home: Option<Seq<u8>>) -> Seq<u8> {
    match home {
        Some(h) => join_bytes(h, encode_utf8(".cnpmrc"@)),
        None => encode_utf8(".cnpmrc"@),
    }
}

/// The message of an unknown setting.
pub open spec fn unknown_key_message(key: Seq<char>) -> Seq<char> {
    "Unknown key: "@ + key
}

/// What `config get` shows for a key, given the system's cache directory;
/// the default cache directory is shown as the lossy text of its path.
pub open spec fn config_value_spec(c: Config, key: Seq<char>, system: Option<Seq<u8>>) -> Result<Seq<char>, (ErrorKind, Seq<char>)> {
    if key == "registry"@ {
        Ok(registry_of(c))
    } else if key == "cache-dir"@ {
        Ok(
            match c.cache_dir {
                Some(d) => d@,
                None => lossy_text_of(default_cache_dir_spec(system)),
            },
        )
    } else if key == "parallel-downloads"@ {
        Ok(decimal_text(parallel_downloads_of(c) as nat))
    } else if key == "strict"@ {
        Ok(if strict_of(c) {
            "true"@
        } else {
            "false"@
        })
    } else {
        Err((ErrorKind::Config, unknown_key_message(key)))
    }
}

/// What `config set` makes of a configuration.
pub open spec fn config_set_spec(c: Config, key: Seq<char>, value: String) -> Result<Config, (ErrorKind, Seq<char>)> {
    if key == "registry"@ {
        Ok(Config { registry: Some(value), ..c })
    } else if key == "cache-dir"@ {
        Ok(Config { cache_dir: Some(value), ..c })
    } else if key == "parallel-downloads"@ {
        match parse_usize_spec(value@) {
            Some(n) => Ok(Config { parallel_downloads: Some(n), ..c }),
            None => Err((ErrorKind::Config, "Invalid number"@)),
        }
    } else if key == "strict"@ {
        Ok(Config { strict: Some(value@ == "true"@), ..c })
    } else {
        Err((ErrorKind::Config, unknown_key_message(key)))
    }
}

/// What `config delete` makes of a configuration.
pub open spec fn config_delete_spec(c: Config, key: Seq<char>) -> Result<Config, (ErrorKind, Seq<char>)> {
    if key == "registry"@ {
        Ok(Config { registry: None, ..c })
    } else if key == "cache-dir"@ {
        Ok(Config { cache_dir: None, ..c })
    } else if key == "parallel-downloads"@ {
        Ok(Config { parallel_downloads: None, ..c })
    } else if key == "strict"@ {
        Ok(Config { strict: None, ..c })
    } else {
        Err((ErrorKind::Config, unknown_key_message(key)))
    }
}

/// The names of the settings are different texts.
proof fn lemma_setting_names_differ()
    ensures
        "registry"@ != "cache-dir"@,
        "registry"@ != "parallel-downloads"@,
        "registry"@ != "strict"@,
        "cache-dir"@ != "parallel-downloads"@,
        "cache-dir"@ != "strict"@,
        "parallel-downloads"@ != "strict"@,
{
    reveal_strlit("registry");
    reveal_strlit("cache-dir");
    reveal_strlit("parallel-downloads");
    reveal_strlit("strict");
    assert(("registry"@).len() == 8);
    assert(("cache-dir"@).len() == 9);
    assert(("parallel-downloads"@).len() == 18);
    assert(("strict"@).len() == 6);
}

/// A value set for a key is what `config get` shows for it afterwards;
/// for `strict`, `true` reads back as `true` and anything else as `false`,
/// and a number reads back as its decimal text.
pub proof fn lemma_set_then_get(c: Config, key: Seq<char>, value: String, system: Option<Seq<u8>>)
    requires
        config_set_spec(c, key, value) is Ok,
    ensures
        ({
            let c2 = config_set_spec(c, key, value)->Ok_0;
            &&& key == "registry"@ ==> config_value_spec(c2, key, system) == Ok::<Seq<char>, (ErrorKind, Seq<char>)>(value@)
            &&& key == "cache-dir"@ ==> config_value_spec(c2, key, system) == Ok::<Seq<char>, (ErrorKind, Seq<char>)>(value@)
            &&& key == "parallel-downloads"@ ==> parallel_downloads_of(c2) == parse_usize_spec(value@)->Some_0
                && config_value_spec(c2, key, system) == Ok::<Seq<char>, (ErrorKind, Seq<char>)>(
                decimal_text(parse_usize_spec(value@)->Some_0 as nat),
            )
            &&& key == "strict"@ ==> strict_of(c2) == (value@ == "true"@) && config_value_spec(c2, key, system)
                == Ok::<Seq<char>, (ErrorKind, Seq<char>)>(
                if value@ == "true"@ {
                    "true"@
                } else {
                    "false"@
                },
            )
        }),
{
    lemma_setting_names_differ();
}

/// Setting `parallel-downloads` to the decimal text of a number succeeds,
/// and `config get` then shows that same text.
pub proof fn lemma_set_number_reads_back(c: Config, n: usize, value: String, system: Option<Seq<u8>>)
    requires
        value@ == decimal_text(n as nat),
    ensures
        config_set_spec(c, "parallel-downloads"@, value) is Ok,
        config_value_spec(config_set_spec(c, "parallel-downloads"@, value)->Ok_0, "parallel-downloads"@, system)
            == Ok::<Seq<char>, (ErrorKind, Seq<char>)>(value@),
{
    lemma_setting_names_differ();
    lemma_decimal_text_parses(n as nat, usize::MAX as nat);
}

/// A deleted setting takes its default again.
pub proof fn lemma_delete_restores_default(c: Config, key: Seq<char>, system: Option<Seq<u8>>)
    requires
        config_delete_spec(c, key) is Ok,
    ensures
        ({
            let c2 = config_delete_spec(c, key)->Ok_0;
            &&& key == "registry"@ ==> registry_of(c2) == default_registry_url()
            &&& key == "cache-dir"@ ==> cache_dir_of(c2, system) == default_cache_dir_spec(system)
            &&& key == "parallel-downloads"@ ==> parallel_downloads_of(c2) == 4
            &&& key == "strict"@ ==> !strict_of(c2)
        }),
{
    lemma_setting_names_differ();
}

impl Config {
    /// A configuration with every setting missing.
    pub fn new() -> (c: Config)
        ensures
            c.registry is None,
            c.cache_dir is None,
            c.node_modules_dir is None,
            c.lock_file is None,
            c.strict is None,
            c.parallel_downloads is None,
    {
        Config {
            registry: None,
            cache_dir: None,
            node_modules_dir: None,
            lock_file: None,
            strict: None,
            parallel_downloads: None,
        }
    }

    /// Where the configuration file lives, given the home directory.
    pub fn path_in(home: Option<Vec<u8>>) -> (p: Vec<u8>)
        ensures
            p@ == config_path_spec(opt_bytes(home)),
    {
        let name = text_bytes(".cnpmrc");
        match home {
            Some(h) => join_path_bytes(h.as_slice(), name.as_slice()),
            None => name,
        }
    }

    /// Where the configuration file lives: `.cnpmrc` in the home directory.
    pub fn default_path() -> (p: Vec<u8>)
        ensures
            exists|home: Option<Seq<u8>>| p@ == config_path_spec(home),
    {
        let home = system_home_dir();
        Self::path_in(home)
    }

    /// The registry to use.
    pub fn get_registry(&self) -> (r: String)
        ensures
            r@ == registry_of(*self),
    {
        match &self.registry {
            Some(r) => r.clone(),
            None => owned("https://registry.npmjs.org"),
        }
    }

    /// The cache directory to use, given the system's cache directory.
    pub fn cache_dir_in(&self, system: Option<Vec<u8>>) -> (d: Vec<u8>)
        ensures
            d@ == cache_dir_of(*self, opt_bytes(system)),
    {
        match &self.cache_dir {
            Some(d) => text_bytes(d.as_str()),
            None => default_cache_dir(system),
        }
    }

    /// The cache directory to use.
    pub fn get_cache_dir(&self) -> (d: Vec<u8>)
        ensures
            exists|system: Option<Seq<u8>>| d@ == cache_dir_of(*self, system),
    {
        let system = system_cache_dir();
        self.cache_dir_in(system)
    }

    /// The `node_modules` directory to use.
    pub fn get_node_modules_dir(&self) -> (d: String)
        ensures
            d@ == node_modules_dir_of(*self),
    {
        match &self.node_modules_dir {
            Some(d) => d.clone(),
            None => owned("node_modules"),
        }
    }

    /// The number of parallel downloads allowed.
    pub fn get_parallel_downloads(&self) -> (n: usize)
        ensures
            n == parallel_downloads_of(*self),
    {
        match self.parallel_downloads {
            Some(n) => n,
            None => 4,
        }
    }

    /// Whether strict mode is on.
    pub fn is_strict(&self) -> (b: bool)
        ensures
            b == strict_of(*self),
    {
        match self.strict {
            Some(b) => b,
            None => false,
        }
    }

    /// What `config get` shows for a key, given the system's cache
    /// directory.
    pub fn value_in(&self, key: &str, system: Option<Vec<u8>>) -> (r: Result<String, CNodeError>)
        ensures
            crate::error::string_result_view(r) == config_value_spec(*self, key@, opt_bytes(system)),
    {
        if str_eq(key, "registry") {
            Ok(self.get_registry())
        } else if str_eq(key, "cache-dir") {
            match &self.cache_dir {
                Some(d) => Ok(d.clone()),
                None => {
                    let dir = default_cache_dir(system);
                    Ok(lossy_text(dir.as_slice()))
                },
            }
        } else if str_eq(key, "parallel-downloads") {
            let digits = decimal_chars(self.get_parallel_downloads() as u64);
            Ok(string_from_chars(digits.as_slice()))
        } else if str_eq(key, "strict") {
            if self.is_strict() {
                Ok(owned("true"))
            } else {
                Ok(owned("false"))
            }
        } else {
            Err(CNodeError::ConfigError(concat("Unknown key: ", key)))
        }
    }

    /// What `config get` shows for a key.
    pub fn value(&self, key: &str) -> (r: Result<String, CNodeError>)
        ensures
            exists|system: Option<Seq<u8>>| crate::error::string_result_view(r) == config_value_spec(*self, key@, system),
    {
        let system = system_cache_dir();
        self.value_in(key, system)
    }

    /// Applies `config set key value`; an unknown key or an unreadable
    /// number leaves the configuration as it was.
    pub fn set_value(&mut self, key: &str, value: String) -> (r: Result<(), CNodeError>)
        ensures
            config_set_spec(*old(self), key@, value) matches Ok(c) ==> r is Ok && *final(self) == c,
            config_set_spec(*old(self), key@, value) matches Err(e) ==> r matches Err(x) && x@ == e && *final(self)
                == *old(self),
    {
        if str_eq(key, "registry") {
            self.registry = Some(value);
            Ok(())
        } else if str_eq(key, "cache-dir") {
            self.cache_dir = Some(value);
            Ok(())
        } else if str_eq(key, "parallel-downloads") {
            let vc = chars_of(value.as_str());
            match parse_usize(vc.as_slice()) {
                Some(n) => {
                    self.parallel_downloads = Some(n);
                    Ok(())
                },
                None => Err(CNodeError::ConfigError(owned("Invalid number"))),
            }
        } else if str_eq(key, "strict") {
            let b = str_eq(value.as_str(), "true");
            self.strict = Some(b);
            Ok(())
        } else {
            Err(CNodeError::ConfigError(concat("Unknown key: ", key)))
        }
    }

    /// Applies `config delete key`; an unknown key leaves the configuration
    /// as it was.
    pub fn delete_value(&mut self, key: &str) -> (r: Result<(), CNodeError>)
        ensures
            config_delete_spec(*old(self), key@) matches Ok(c) ==> r is Ok && *final(self) == c,
            config_delete_spec(*old(self), key@) matches Err(e) ==> r matches Err(x) && x@ == e && *final(self)
                == *old(self),
    {
        if str_eq(key, "registry") {
            self.registry = None;
            Ok(())
        } else if str_eq(key, "cache-dir") {
            self.cache_dir = None;
            Ok(())
        } else if str_eq(key, "parallel-downloads") {
            self.parallel_downloads = None;
            Ok(())
        } else if str_eq(key, "strict") {
            self.strict = None;
            Ok(())
        } else {
            Err(CNodeError::ConfigError(concat("Unknown key: ", key)))
        }
    }
}

impl Default for Config {
    fn default() -> (c: Config)
        ensures
            c.registry is None,
            c.cache_dir is None,
            c.node_modules_dir is None,
            c.lock_file is None,
            c.strict is None,
            c.parallel_downloads is None,
    {
        Config::new()
    }
}

} // verus!
