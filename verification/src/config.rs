//! Connection configuration and DSN builder for the embedded
//! analytical engine.
//!
//! A `Config` holds the absolute path of the primary database file,
//! the storage directory derived from it (its textual parent), and
//! optional tuning parameters. `build_dsn` serializes the path plus
//! the explicitly set parameters as `path?key=value&key=value`.

use vstd::prelude::*;

use crate::error::Error;
use crate::strutil::last_index_of;
use crate::strutil::lemma_last_index_character;
use crate::strutil::spec_join;
use crate::strutil::spec_last_index_of;
use crate::strutil::spec_udec_str;
use crate::strutil::u64_to_dec_string;

verus! {

/// Least storage limit accepted, one MiB.
pub const MIN_STORAGE_LIMIT_BYTES: usize = 1024 * 1024;

/// Greatest memory limit accepted, in GiB.
pub const MAX_MEMORY_LIMIT_GB: usize = 1024;

/// A path is absolute when it starts with `/`.
pub open spec fn spec_is_absolute(s: Seq<char>) -> bool {
    s.len() > 0 && s[0] == '/'
}

/// Textual parent of an absolute path that names a file (its last
/// character is not `/`): everything before the last `/`, or `/`
/// itself when the last `/` is the leading one.
pub open spec fn spec_parent_dir(s: Seq<char>) -> Seq<char>
    recommends
        spec_is_absolute(s),
        s[s.len() - 1] != '/',
{
    let k = spec_last_index_of(s, '/');
    if k <= 0 {
        s.take(1)
    } else {
        s.take(k)
    }
}

/// Mathematical content of a `Config`.
pub ghost struct ConfigView {
    pub dsn: Seq<char>,
    pub cpu_cores: Option<usize>,
    pub memory_limit_gb: Option<usize>,
    pub storage_limit_bytes: Option<usize>,
    pub boot_queries: Seq<Seq<char>>,
    pub db_file_path: Seq<char>,
    pub db_storage_path: Seq<char>,
    pub pool_size: Option<u32>,
}

/// Immutable connection parameters of the embedded engine: built once
/// at startup, then only read.
#[derive(Debug, Clone, PartialEq, Eq)]
pub struct Config {
    dsn: String,
    cpu_cores: Option<usize>,
    memory_limit_gb: Option<usize>,
    storage_limit_bytes: Option<usize>,
    boot_queries: Vec<String>,
    db_file_path: String,
    db_storage_path: String,
    pool_size: Option<u32>,
}

impl View for Config {
    type V = ConfigView;

    closed spec fn view(&self) -> ConfigView {
        ConfigView {
            dsn: self.dsn@,
            cpu_cores: self.cpu_cores,
            memory_limit_gb: self.memory_limit_gb,
            storage_limit_bytes: self.storage_limit_bytes,
            boot_queries: self.boot_queries.deep_view(),
            db_file_path: self.db_file_path@,
            db_storage_path: self.db_storage_path@,
            pool_size: self.pool_size,
        }
    }
}

/// The tuning fields a `Config` can ever hold set, within bounds.
pub open spec fn config_wf(v: ConfigView) -> bool {
    &&& spec_is_absolute(v.db_file_path)
    &&& v.dsn == v.db_file_path
    &&& v.db_storage_path == spec_parent_dir(v.db_file_path)
    &&& (v.cpu_cores matches Some(c) ==> c >= 1)
    &&& (v.memory_limit_gb matches Some(m) ==> 1 <= m <= MAX_MEMORY_LIMIT_GB)
    &&& (v.storage_limit_bytes matches Some(b) ==> b >= MIN_STORAGE_LIMIT_BYTES)
    &&& (v.pool_size matches Some(p) ==> p >= 1)
}

/// Query-string rendering of one optional parameter.
pub open spec fn opt_param(name: Seq<char>, v: Option<usize>) -> Seq<Seq<char>> {
    match v {
        Some(x) => seq![name + spec_udec_str(x as nat)],
        None => Seq::empty(),
    }
}

/// The parameters a configuration serializes, in fixed order.
pub open spec fn spec_dsn_params(v: ConfigView) -> Seq<Seq<char>> {
    opt_param("cpu="@, v.cpu_cores) + opt_param("max_memory_limit="@, v.memory_limit_gb)
        + opt_param("storage_limit="@, v.storage_limit_bytes)
}

/// The complete DSN a configuration serializes to: the primary path,
/// then `?` and the set parameters joined by `&`, when any is set.
pub open spec fn spec_build_dsn(v: ConfigView) -> Seq<char> {
    if spec_dsn_params(v).len() == 0 {
        v.dsn
    } else {
        v.dsn + "?"@ + spec_join(spec_dsn_params(v), "&"@)
    }
}

/// A requested core count lies within an available bound.
pub open spec fn cores_within(cores: usize, avail: usize) -> bool {
    1 <= cores <= avail
}

/// Relies on `num_cpus::get`: the number of logical cores available
/// to this process, which is always at least one.
#[verifier::external_body]
fn available_cpu_cores() -> (n: usize)
    ensures
        n >= 1,
{
    num_cpus::get()
}

fn string_lit(s: &str) -> (r: String)
    ensures
        r@ == s@,
{
    String::from_str(s)
}

fn config_error(message: &str) -> (e: Error)
    ensures
        e matches Error::Config { message: m } && m@ == message@,
{
    Error::Config { message: string_lit(message) }
}

impl Config {
    /// Validates the primary database file path and returns the
    /// configuration with every tuning field unset.
    ///
    /// Succeeds exactly on absolute paths that name a file below a
    /// parent directory; a relative path, the bare root, or a path
    /// ending in `/` is rejected with a configuration error.
    pub fn new(dsn: &str) -> (r: Result<Config, Error>)
        ensures
            r is Ok <==> spec_is_absolute(dsn@) && dsn@.len() > 1 && dsn@[dsn@.len() - 1] != '/',
            r matches Ok(c) ==> c@ == (ConfigView {
                dsn: dsn@,
                cpu_cores: None,
                memory_limit_gb: None,
                storage_limit_bytes: None,
                boot_queries: Seq::<Seq<char>>::empty(),
                db_file_path: dsn@,
                db_storage_path: spec_parent_dir(dsn@),
                pool_size: None,
            }),
            r matches Ok(c) ==> config_wf(c@),
            r matches Err(e) ==> e is Config,
    {
        let n = dsn.unicode_len();
        if n == 0 || dsn.get_char(0) != '/' {
            return Err(config_error("DSN path must be absolute"));
        }
        if n == 1 {
            // the path is just the root: it has no parent directory
            return Err(config_error("DSN path has no parent directory"));
        }
        if dsn.get_char(n - 1) == '/' {
            // a trailing slash leaves no file name for the primary
            // database
            return Err(config_error("DSN path has no file name"));
        }
        let k = match last_index_of(dsn, '/') {
            Some(k) => k,
            None => {
                // an absolute path holds a slash
                proof {
                    lemma_last_index_character(dsn@, '/');
                    assert(false);
                }
                0
            },
        };
        let parent = if k == 0 {
            dsn.substring_char(0, 1)
        } else {
            dsn.substring_char(0, k)
        };
        let c = Config {
            dsn: String::from_str(dsn),
            cpu_cores: None,
            memory_limit_gb: None,
            storage_limit_bytes: None,
            boot_queries: Vec::new(),
            db_file_path: String::from_str(dsn),
            db_storage_path: String::from_str(parent),
            pool_size: None,
        };
        assert(c.boot_queries.deep_view() =~= Seq::<Seq<char>>::empty());
        Ok(c)
    }

    /// Builds the complete DSN string from the path and every tuning
    /// parameter that was explicitly set.
    pub fn build_dsn(&self) -> (r: String)
        ensures
            r@ == spec_build_dsn(self@),
    {
        let mut params: Vec<String> = Vec::new();
        if let Some(cores) = self.cpu_cores {
            let mut p = string_lit("cpu=");
            let d = u64_to_dec_string(cores as u64);
            p.append(d.as_str());
            params.push(p);
        }
        if let Some(memory) = self.memory_limit_gb {
            let mut p = string_lit("max_memory_limit=");
            let d = u64_to_dec_string(memory as u64);
            p.append(d.as_str());
            params.push(p);
        }
        if let Some(storage) = self.storage_limit_bytes {
            let mut p = string_lit("storage_limit=");
            let d = u64_to_dec_string(storage as u64);
            p.append(d.as_str());
            params.push(p);
        }
        assert(params.deep_view() =~= spec_dsn_params(self@));

        if params.len() == 0 {
            return self.dsn.clone();
        }
        let mut joined = string_lit("");
        let n = params.len();
        let mut i: usize = 0;
        proof {
            reveal_strlit("");
            assert(joined@ =~= Seq::<char>::empty());
            assert(params.deep_view().take(0) =~= Seq::<Seq<char>>::empty());
        }
        while i < n
            invariant
                n == params.len(),
                0 <= i <= n,
                n > 0,
                params.deep_view() == spec_dsn_params(self@),
                joined@ == spec_join(params.deep_view().take(i as int), "&"@),
            decreases n - i,
        {
            if i > 0 {
                joined.append("&");
            }
            joined.append(params[i].as_str());
            proof {
                let parts = params.deep_view();
                assert(parts.take(i + 1).drop_last() =~= parts.take(i as int));
                assert(parts.take(i + 1).last() == parts[i as int]);
                if i == 0 {
                    assert(joined@ =~= spec_join(parts.take(1), "&"@));
                }
            }
            i = i + 1;
        }
        let mut r = self.dsn.clone();
        r.append("?");
        r.append(joined.as_str());
        proof {
            let parts = params.deep_view();
            assert(parts.take(n as int) =~= parts);
            assert(r@ =~= spec_build_dsn(self@));
        }
        r
    }

    /// Sets the CPU core count after checking it against an upper
    /// bound, normally the number of cores the runtime reports.
    /// Succeeds exactly when `cores` lies in `[1, available]`.
    pub fn with_cpu_cores_checked(self, cores: usize, available: usize) -> (r: Result<
        Config,
        Error,
    >)
        ensures
            r is Ok <==> 1 <= cores <= available,
            r matches Ok(c) ==> c@ == (ConfigView { cpu_cores: Some(cores), ..self@ }),
            r matches Ok(c) ==> (config_wf(self@) ==> config_wf(c@)),
            r matches Err(e) ==> e is Config,
    {
        if cores == 0 || cores > available {
            let mut m = string_lit("Invalid CPU core count: ");
            let d = u64_to_dec_string(cores as u64);
            m.append(d.as_str());
            m.append(" (available: ");
            let a = u64_to_dec_string(available as u64);
            m.append(a.as_str());
            m.append(")");
            return Err(Error::Config { message: m });
        }
        Ok(Config { cpu_cores: Some(cores), ..self })
    }

    /// Sets the number of CPU cores to use.
    ///
    /// The upper bound is the core count the runtime reports at call
    /// time, so success cannot be promised beyond one core; a request
    /// of zero always fails, a request of one always succeeds.
    pub fn with_cpu_cores(self, cores: usize) -> (r: Result<Config, Error>)
        ensures
            r matches Ok(c) ==> cores >= 1 && c@ == (ConfigView {
                cpu_cores: Some(cores),
                ..self@
            }),
            r matches Err(e) ==> e is Config,
            r matches Ok(c) ==> (config_wf(self@) ==> config_wf(c@)),
            cores == 0 ==> r is Err,
            cores == 1 ==> r is Ok,
            exists|avail: usize| avail >= 1 && ((r is Ok) <==> #[trigger] cores_within(
                cores,
                avail,
            )),
    {
        let available = available_cpu_cores();
        let r = self.with_cpu_cores_checked(cores, available);
        proof {
            assert(available >= 1 && ((r is Ok) <==> cores_within(cores, available)));
        }
        r
    }

    /// Sets the memory limit in gigabytes; accepts exactly `[1, 1024]`.
    pub fn with_memory_limit_gb(self, limit_gb: usize) -> (r: Result<Config, Error>)
        ensures
            r is Ok <==> 1 <= limit_gb <= MAX_MEMORY_LIMIT_GB,
            r matches Ok(c) ==> c@ == (ConfigView { memory_limit_gb: Some(limit_gb), ..self@ }),
            r matches Ok(c) ==> (config_wf(self@) ==> config_wf(c@)),
            r matches Err(e) ==> e is Config,
    {
        if limit_gb < 1 || limit_gb > MAX_MEMORY_LIMIT_GB {
            let mut m = string_lit("Invalid memory limit: ");
            let d = u64_to_dec_string(limit_gb as u64);
            m.append(d.as_str());
            m.append(" GB");
            return Err(Error::Config { message: m });
        }
        Ok(Config { memory_limit_gb: Some(limit_gb), ..self })
    }

    /// Sets the storage limit in bytes; accepts exactly one MiB or more.
    pub fn with_storage_limit_bytes(self, limit_bytes: usize) -> (r: Result<Config, Error>)
        ensures
            r is Ok <==> limit_bytes >= MIN_STORAGE_LIMIT_BYTES,
            r matches Ok(c) ==> c@ == (ConfigView {
                storage_limit_bytes: Some(limit_bytes),
                ..self@
            }),
            r matches Ok(c) ==> (config_wf(self@) ==> config_wf(c@)),
            r matches Err(e) ==> e is Config,
    {
        if limit_bytes < MIN_STORAGE_LIMIT_BYTES {
            let mut m = string_lit("Invalid storage limit: ");
            let d = u64_to_dec_string(limit_bytes as u64);
            m.append(d.as_str());
            m.append(" bytes");
            return Err(Error::Config { message: m });
        }
        Ok(Config { storage_limit_bytes: Some(limit_bytes), ..self })
    }

    /// Appends an extra startup statement; never fails.
    pub fn with_boot_query(self, query: String) -> (c: Config)
        ensures
            c@ == (ConfigView { boot_queries: self@.boot_queries.push(query@), ..self@ }),
            config_wf(self@) ==> config_wf(c@),
    {
        let mut boot_queries = self.boot_queries;
        let ghost old_q = boot_queries.deep_view();
        boot_queries.push(query);
        assert(boot_queries.deep_view() =~= old_q.push(query@));
        Config { boot_queries, ..self }
    }

    /// Sets the connection pool size; accepts any positive count.
    pub fn with_pool_size(self, pool_size: u32) -> (r: Result<Config, Error>)
        ensures
            r is Ok <==> pool_size >= 1,
            r matches Ok(c) ==> c@ == (ConfigView { pool_size: Some(pool_size), ..self@ }),
            r matches Ok(c) ==> (config_wf(self@) ==> config_wf(c@)),
            r matches Err(e) ==> e is Config,
    {
        if pool_size == 0 {
            return Err(config_error("Pool size must be greater than zero"));
        }
        Ok(Config { pool_size: Some(pool_size), ..self })
    }

    /// The primary database file path as given.
    pub fn dsn(&self) -> (r: &str)
        ensures
            r@ == self@.dsn,
    {
        self.dsn.as_str()
    }

    pub fn cpu_cores(&self) -> (r: Option<usize>)
        ensures
            r == self@.cpu_cores,
    {
        self.cpu_cores
    }

    pub fn memory_limit_gb(&self) -> (r: Option<usize>)
        ensures
            r == self@.memory_limit_gb,
    {
        self.memory_limit_gb
    }

    pub fn storage_limit_bytes(&self) -> (r: Option<usize>)
        ensures
            r == self@.storage_limit_bytes,
    {
        self.storage_limit_bytes
    }

    pub fn boot_queries(&self) -> (r: &Vec<String>)
        ensures
            r.deep_view() == self@.boot_queries,
    {
        &self.boot_queries
    }

    pub fn db_file_path(&self) -> (r: &str)
        ensures
            r@ == self@.db_file_path,
    {
        self.db_file_path.as_str()
    }

    pub fn pool_size(&self) -> (r: Option<u32>)
        ensures
            r == self@.pool_size,
    {
        self.pool_size
    }

    /// The pool size to open the connection pool with: the
    /// configured size, or four when none was set.
    pub fn pool_size_or_default(&self) -> (r: u32)
        ensures
            r == match self@.pool_size {
                Some(p) => p,
                None => 4u32,
            },
    {
        match self.pool_size {
            Some(p) => p,
            None => 4,
        }
    }

    /// The directory that holds the per-dataset database files.
    pub fn db_storage_path(&self) -> (r: &str)
        ensures
            r@ == self@.db_storage_path,
    {
        self.db_storage_path.as_str()
    }
}

} // verus!
