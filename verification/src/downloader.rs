//! The downloader's logic: where a tarball is cached, how its integrity
//! is written and checked, and where the cache lives.
use sha2::Digest;
use vstd::prelude::*;
use crate::error::{CNodeError, ErrorKind};
use crate::package::PackageVersion;
use crate::text::{
    chars_of, concat, has_prefix, join_bytes, join_path_bytes, owned, starts_with, str_eq,
    string_from_chars, tail_from, text_bytes,
};
use vstd::utf8::encode_utf8;

verus! {

/// The SHA-256 digest of a byte sequence.
pub uninterp spec fn sha256_of(data: Seq<u8>) -> Seq<u8>;

/// The SHA-512 digest of a byte sequence.
pub uninterp spec fn sha512_of(data: Seq<u8>) -> Seq<u8>;

/// The standard, padded base64 encoding of a byte sequence.
pub uninterp spec fn base64_of(bytes: Seq<u8>) -> Seq<char>;

/// `sha2::Sha256::digest`: the SHA-256 digest of `data`. The contract names
/// the result (the digest of exactly these bytes) and states its length,
/// the 32 bytes of the algorithm's output size.
#[verifier::external_body]
fn sha256_digest(data: &[u8]) -> (d: Vec<u8>)
    ensures
        d@ == sha256_of(data@),
        d@.len() == 32,
{
    sha2::Sha256::digest(data).to_vec()
}

/// `sha2::Sha512::digest`: the SHA-512 digest of `data`. The contract names
/// the result (the digest of exactly these bytes) and states its length,
/// the 64 bytes of the algorithm's output size.
#[verifier::external_body]
fn sha512_digest(data: &[u8]) -> (d: Vec<u8>)
    ensures
        d@ == sha512_of(data@),
        d@.len() == 64,
{
    sha2::Sha512::digest(data).to_vec()
}

/// `base64::Engine::encode` with the `STANDARD` engine: the padded base64
/// text of `bytes`. The contract names the result and states its length,
/// four characters for every started group of three bytes, as
/// `encoded_len` computes it with padding; the encoder panics when that
/// length overflows, which `requires` leaves out.
#[verifier::external_body]
fn base64_encode(bytes: &[u8]) -> (s: String)
    requires
        bytes@.len() / 3 * 4 + 4 <= usize::MAX,
    ensures
        s@ == base64_of(bytes@),
        s@.len() == 4 * ((bytes@.len() + 2) / 3),
{
    base64::Engine::encode(&base64::engine::general_purpose::STANDARD, bytes)
}

/// `dirs::cache_dir`: the user's cache directory, if the platform has one,
/// as the bytes of its path (`OsString::into_encoded_bytes`, so that no
/// name is altered). It depends on the environment, so nothing is said of
/// it.
#[verifier::external_body]
pub(crate) fn system_cache_dir() -> (d: Option<Vec<u8>>) {
    match dirs::cache_dir() {
        Some(p) => Some(p.into_os_string().into_encoded_bytes()),
        None => None,
    }
}

/// The integrity text of data: `sha256-` and the base64 of its SHA-256.
pub open spec fn integrity_of(data: Seq<u8>) -> Seq<char> {
    "sha256-"@ + base64_of(sha256_of(data))
}

/// The integrity text of `data`, as package-lock files record it: 51
/// characters, `sha256-` and the 44 of the digest's base64.
pub fn compute_integrity(data: &[u8]) -> (s: String)
    ensures
        s@ == integrity_of(data@),
        s@.len() == 51,
{
    let digest = sha256_digest(data);
    let encoded = base64_encode(digest.as_slice());
    proof {
        reveal_strlit("sha256-");
    }
    concat("sha256-", encoded.as_str())
}

/// What checking `data` against an integrity text gives: a `sha512-` or
/// `sha256-` text must hold the base64 of the matching digest; any other
/// text is not checked.
pub open spec fn integrity_check(data: Seq<u8>, integrity: Seq<char>) -> Result<(), (ErrorKind, Seq<char>)> {
    if starts_with(integrity, "sha512-"@) {
        if base64_of(sha512_of(data)) == integrity.skip(7) {
            Ok(())
        } else {
            Err((ErrorKind::DownloadFailed, "Integrity check failed (sha512)"@))
        }
    } else if starts_with(integrity, "sha256-"@) {
        if base64_of(sha256_of(data)) == integrity.skip(7) {
            Ok(())
        } else {
            Err((ErrorKind::DownloadFailed, "Integrity check failed (sha256)"@))
        }
    } else {
        Ok(())
    }
}

/// A result without a value, seen through the view of its error.
pub open spec fn unit_result_view(r: Result<(), CNodeError>) -> Result<(), (ErrorKind, Seq<char>)> {
    match r {
        Ok(()) => Ok(()),
        Err(e) => Err(e@),
    }
}

/// The integrity text computed for data is accepted for that data.
pub proof fn lemma_computed_integrity_verifies(data: Seq<u8>)
    ensures
        integrity_check(data, integrity_of(data)) == Ok::<(), (ErrorKind, Seq<char>)>(()),
{
    reveal_strlit("sha256-");
    reveal_strlit("sha512-");
    let t = integrity_of(data);
    assert(("sha256-"@).len() == 7);
    assert(t[3] == ("sha256-"@)[3]);
    assert(t[3] == '2');
    assert(("sha512-"@)[3] == '5');
    assert(t.take(7) =~= "sha256-"@);
    assert(t.skip(7) =~= base64_of(sha256_of(data)));
}

/// The part of a package name that goes into a cache file name: `/`
/// becomes `_` and `@` is dropped.
pub open spec fn cache_safe_name(name: Seq<char>) -> Seq<char>
    decreases name.len(),
{
    if name.len() == 0 {
        Seq::empty()
    } else {
        let rest = cache_safe_name(name.drop_last());
        if name.last() == '/' {
            rest.push('_')
        } else if name.last() == '@' {
            rest
        } else {
            rest.push(name.last())
        }
    }
}

/// The cache file name of a version: `{name}-{version}.tar.gz`.
pub open spec fn cache_file_name(name: Seq<char>, version: Seq<char>) -> Seq<char> {
    cache_safe_name(name) + "-"@ + version + ".tar.gz"@
}

/// The cache directory used when none is given, as the bytes of its path:
/// `cnpm` under the system's cache directory, or `.cnpm_cache` where there
/// is none.
pub open spec fn default_cache_dir_spec(system: Option<Seq<u8>>) -> Seq<u8> {
    match system {
        Some(d) => join_bytes(d, encode_utf8("cnpm"@)),
        None => encode_utf8(".cnpm_cache"@),
    }
}

/// An optional path seen through its bytes.
pub open spec fn opt_bytes(o: Option<Vec<u8>>) -> Option<Seq<u8>> {
    match o {
        Some(b) => Some(b@),
        None => None,
    }
}

fn safe_name_chars(name: &[char]) -> (v: Vec<char>)
    ensures
        v@ == cache_safe_name(name@),
{
    let mut v: Vec<char> = Vec::new();
    let mut i: usize = 0;
    while i < name.len()
        invariant
            i <= name@.len(),
            v@ == cache_safe_name(name@.take(i as int)),
        decreases name@.len() - i,
    {
        let c = name[i];
        proof {
            assert(name@.take(i + 1).drop_last() =~= name@.take(i as int));
            assert(name@.take(i + 1).last() == c);
        }
        if c == '/' {
            v.push('_');
        } else if c != '@' {
            v.push(c);
        }
        i = i + 1;
    }
    assert(name@.take(name@.len() as int) =~= name@);
    v
}

/// The cache directory used when none is given, from the system's cache
/// directory.
pub fn default_cache_dir(system: Option<Vec<u8>>) -> (d: Vec<u8>)
    ensures
        d@ == default_cache_dir_spec(opt_bytes(system)),
{
    match system {
        Some(s) => {
            let name = text_bytes("cnpm");
            join_path_bytes(s.as_slice(), name.as_slice())
        },
        None => text_bytes(".cnpm_cache"),
    }
}

/// What a download does next. The caller reports whether the version's
/// tarball is in the cache and, once fetched, its bytes.
pub enum DownloadStep {
    /// Unpack the cached tarball; nothing is fetched.
    Unpack,
    /// Fetch the tarball from this address.
    Fetch(String),
    /// Store the fetched tarball in the cache, then unpack it.
    StoreAndUnpack,
    /// Stop with this error; nothing is stored.
    Fail(CNodeError),
}

/// Fetches tarballs into a cache directory, held as the bytes of its path;
/// requests time out after `timeout_secs` seconds.
pub struct Downloader {
    cache_dir: Vec<u8>,
    timeout_secs: u64,
}

impl Downloader {
    /// A downloader caching in the given directory, or in the default cache
    /// directory of the system. Creating the directory is the caller's.
    pub fn new(cache_dir: Option<Vec<u8>>) -> (d: Downloader)
        ensures
            cache_dir matches Some(c) ==> d.cache() == c@,
            cache_dir is None ==> exists|sys: Option<Seq<u8>>| d.cache() == default_cache_dir_spec(sys),
            d.timeout() == 300,
    {
        let cache = match cache_dir {
            Some(c) => c,
            None => {
                let sys = system_cache_dir();
                let d = default_cache_dir(sys);
                assert(d@ == default_cache_dir_spec(opt_bytes(sys)));
                d
            },
        };
        Downloader { cache_dir: cache, timeout_secs: 300 }
    }

    /// The cache directory.
    pub closed spec fn cache(&self) -> Seq<u8> {
        self.cache_dir@
    }

    /// The timeout of a download, in seconds.
    pub closed spec fn timeout(&self) -> u64 {
        self.timeout_secs
    }

    /// The cache directory.
    pub fn cache_dir(&self) -> (c: &[u8])
        ensures
            c@ == self.cache(),
    {
        self.cache_dir.as_slice()
    }

    /// The timeout of a download, in seconds.
    pub fn timeout_secs(&self) -> (t: u64)
        ensures
            t == self.timeout(),
    {
        self.timeout_secs
    }

    /// Where a version's tarball is cached: `{name}-{version}.tar.gz` in the
    /// cache directory, with `/` in the name turned into `_` and `@` dropped.
    pub fn get_cache_path(&self, name: &str, version: &str) -> (p: Vec<u8>)
        ensures
            p@ == join_bytes(self.cache(), encode_utf8(cache_file_name(name@, version@))),
    {
        let nc = chars_of(name);
        let safe = safe_name_chars(nc.as_slice());
        let safe_s = string_from_chars(safe.as_slice());
        let mut file = concat(safe_s.as_str(), "-");
        file.append(version);
        file.append(".tar.gz");
        let file_bytes = text_bytes(file.as_str());
        join_path_bytes(self.cache_dir.as_slice(), file_bytes.as_slice())
    }

    /// The next step of downloading `package`: a cached tarball is
    /// unpacked without any request; otherwise the tarball is fetched from
    /// the address the registry gave, and the fetched bytes are stored and
    /// unpacked only when they pass the integrity check the registry asks
    /// for (none when it gives no integrity), a failed check ending the
    /// download with its error before anything is stored.
    pub fn download_step(&self, package: &PackageVersion, cached: bool, fetched: Option<&[u8]>) -> (s: DownloadStep)
        ensures
            cached ==> s == DownloadStep::Unpack,
            !cached && fetched is None ==> (s matches DownloadStep::Fetch(u) && u@ == package.dist.tarball@),
            !cached && fetched is Some ==> match package.dist.integrity {
                None => s == DownloadStep::StoreAndUnpack,
                Some(i) => (integrity_check(fetched->0@, i@) is Ok ==> s == DownloadStep::StoreAndUnpack) && (integrity_check(
                    fetched->0@,
                    i@,
                ) matches Err(e) ==> (s matches DownloadStep::Fail(x) && x@ == e)),
            },
    {
        if cached {
            return DownloadStep::Unpack;
        }
        match fetched {
            None => DownloadStep::Fetch(package.dist.tarball.clone()),
            Some(data) => match &package.dist.integrity {
                None => DownloadStep::StoreAndUnpack,
                Some(i) => match self.verify_integrity(data, i.as_str()) {
                    Ok(()) => DownloadStep::StoreAndUnpack,
                    Err(e) => DownloadStep::Fail(e),
                },
            },
        }
    }

    /// Checks `data` against an integrity text: see [`integrity_check`].
    pub fn verify_integrity(&self, data: &[u8], integrity: &str) -> (r: Result<(), CNodeError>)
        ensures
            unit_result_view(r) == integrity_check(data@, integrity@),
    {
        let ic = chars_of(integrity);
        let p512 = chars_of("sha512-");
        let p256 = chars_of("sha256-");
        if has_prefix(ic.as_slice(), p512.as_slice()) {
            proof {
                reveal_strlit("sha512-");
            }
            let hash_part = string_from_chars(tail_from(ic.as_slice(), 7).as_slice());
            let digest = sha512_digest(data);
            let computed = base64_encode(digest.as_slice());
            if str_eq(computed.as_str(), hash_part.as_str()) {
                Ok(())
            } else {
                Err(CNodeError::DownloadFailed(owned("Integrity check failed (sha512)")))
            }
        } else if has_prefix(ic.as_slice(), p256.as_slice()) {
            proof {
                reveal_strlit("sha256-");
            }
            let hash_part = string_from_chars(tail_from(ic.as_slice(), 7).as_slice());
            let digest = sha256_digest(data);
            let computed = base64_encode(digest.as_slice());
            if str_eq(computed.as_str(), hash_part.as_str()) {
                Ok(())
            } else {
                Err(CNodeError::DownloadFailed(owned("Integrity check failed (sha256)")))
            }
        } else {
            Ok(())
        }
    }
}

} // verus!
