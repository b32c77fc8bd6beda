//! The scan configuration: threshold, paths to scan, table size, excluded
//! directory names and thread count.
use vstd::prelude::*;
use crate::paths::{join_path, path_join};
use crate::size::{
    ascii_upper, is_ascii_text, number_text, parse_size, read_size, size_bytes, size_number,
    uppercase, SizeError,
};
use crate::text::{clone_strings, text_of, trim, views};

verus! {

/// The scan configuration, as `config.yml` holds it.
#[derive(Debug, Clone)]
pub struct Config {
    /// The smallest file size that counts, such as `"1GB"`.
    pub min_size: String,
    /// The directories to scan; relative ones are taken from the configuration's directory.
    pub scan_paths: Vec<String>,
    /// How many files the tables show.
    pub top_n: usize,
    /// Directory names that the scan skips.
    pub exclude: Vec<String>,
    /// Number of threads (0 = all available cores).
    pub threads: usize,
}

/// How many files the tables show when a configuration names no number.
pub fn default_top_n() -> (n: usize)
    ensures
        n == 50,
{
    50
}

/// The number of logical cores this process may use, from `num_cpus::get`.
/// The crate documents that it is always at least 1; which number comes back
/// depends on the machine, its affinity mask and its cgroup limits.
#[verifier::external_body]
fn available_cores() -> (n: usize)
    ensures
        n >= 1,
{
    num_cpus::get()
}

impl Default for Config {
    fn default() -> (c: Self)
        ensures
            c.min_size@ == "1GB"@,
            views(c.scan_paths@) == seq!["."@],
            c.top_n == 50,
            views(c.exclude@) == seq![".git"@, "node_modules"@, ".cache"@],
            c.threads == 0,
    {
        let mut scan_paths: Vec<String> = Vec::new();
        scan_paths.push(text_of("."));
        let mut exclude: Vec<String> = Vec::new();
        exclude.push(text_of(".git"));
        exclude.push(text_of("node_modules"));
        exclude.push(text_of(".cache"));
        let c = Config {
            min_size: text_of("1GB"),
            scan_paths,
            top_n: 50,
            exclude,
            threads: 0,
        };
        assert(views(c.scan_paths@) =~= seq!["."@]);
        assert(views(c.exclude@) =~= seq![".git"@, "node_modules"@, ".cache"@]);
        c
    }
}

impl Config {
    /// The threshold in bytes, read from `min_size`.
    pub fn min_size_bytes(&self) -> (r: Result<u64, SizeError>)
        ensures
            match r {
                Ok(n) => size_bytes(self.min_size@) == Some(n as nat),
                Err(e) => {
                    &&& size_bytes(self.min_size@) is None
                    &&& e.value@ == size_number(uppercase(trim(self.min_size@)))
                    &&& is_ascii_text(trim(self.min_size@)) ==> e.value@ == ascii_upper(
                        number_text(self.min_size@),
                    )
                },
            },
            is_ascii_text(trim(self.min_size@)) ==> size_bytes(self.min_size@) == read_size(
                trim(self.min_size@),
            ),
    {
        parse_size(self.min_size.as_str())
    }

    /// The thread count given `cores` available cores: the configured count, or all
    /// cores when it is 0.
    pub fn threads_with_cores(&self, cores: usize) -> (n: usize)
        ensures
            n == if self.threads == 0 {
                cores
            } else {
                self.threads
            },
    {
        if self.threads == 0 {
            cores
        } else {
            self.threads
        }
    }

    /// The thread count to scan with: the configured count, or every available core when it is 0.
    pub fn effective_threads(&self) -> (n: usize)
        ensures
            self.threads != 0 ==> n == self.threads,
            n >= 1,
    {
        if self.threads == 0 {
            self.threads_with_cores(available_cores())
        } else {
            self.threads
        }
    }

    /// The scan paths, each relative one taken from `config_dir`.
    pub fn resolve_scan_paths(&self, config_dir: &str) -> (r: Vec<String>)
        ensures
            r@.len() == self.scan_paths@.len(),
            forall|i: int|
                0 <= i < r@.len() ==> (#[trigger] r@[i])@ == path_join(
                    config_dir@,
                    self.scan_paths@[i]@,
                ),
    {
        let mut r: Vec<String> = Vec::new();
        let mut i: usize = 0;
        while i < self.scan_paths.len()
            invariant
                i <= self.scan_paths.len(),
                r@.len() == i,
                forall|j: int|
                    0 <= j < i ==> (#[trigger] r@[j])@ == path_join(
                        config_dir@,
                        self.scan_paths@[j]@,
                    ),
            decreases self.scan_paths.len() - i,
        {
            r.push(join_path(config_dir, self.scan_paths[i].as_str()));
            i = i + 1;
        }
        r
    }

    /// This configuration with the overrides of the command line: a threshold, paths
    /// (when any are given) and a thread count.
    pub fn with_overrides(
        &self,
        min_size: Option<String>,
        paths: Vec<String>,
        threads: Option<usize>,
    ) -> (c: Config)
        ensures
            c.min_size@ == match min_size {
                Some(m) => m@,
                None => self.min_size@,
            },
            views(c.scan_paths@) == if paths@.len() > 0 {
                views(paths@)
            } else {
                views(self.scan_paths@)
            },
            c.top_n == self.top_n,
            views(c.exclude@) == views(self.exclude@),
            c.threads == match threads {
                Some(t) => t,
                None => self.threads,
            },
    {
        let min = match min_size {
            Some(m) => m,
            None => text_of(self.min_size.as_str()),
        };
        let scan_paths = if paths.len() > 0 {
            paths
        } else {
            clone_strings(&self.scan_paths)
        };
        let t = match threads {
            Some(t) => t,
            None => self.threads,
        };
        Config {
            min_size: min,
            scan_paths,
            top_n: self.top_n,
            exclude: clone_strings(&self.exclude),
            threads: t,
        }
    }
}

} // verus!
