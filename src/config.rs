//! Settings of the file-upload service built on the server core.

use vstd::prelude::*;
use vstd::string::StringExecFns;

verus! {

/// Where and how the server listens.
#[derive(Debug)]
pub struct HttpConfig {
    pub host: String,
    pub port: u16,
    pub concurrency_limit: usize,
    pub behind_proxy: bool,
}

impl Default for HttpConfig {
    /// Listen on every interface at port 4040, at most 512 requests at once.
    fn default() -> (r: HttpConfig)
        ensures
            r.host@ == "0.0.0.0"@,
            r.port == 4040,
            r.concurrency_limit == 512,
            !r.behind_proxy,
    {
        HttpConfig {
            host: String::from_str("0.0.0.0"),
            port: 4040,
            concurrency_limit: 512,
            behind_proxy: false,
        }
    }
}

/// The service's settings.
#[derive(Debug)]
pub struct Config {
    pub http: HttpConfig,
    pub upload_dir: String,
    pub temp_dir: String,
    pub prefix_length: usize,
    pub max_file_size: usize,
    pub max_file_name_length: usize,
    pub stats_interval: u64,
    pub fallocate: bool,
}

impl Default for Config {
    fn default() -> (r: Config)
        ensures
            r.http.host@ == "0.0.0.0"@,
            r.http.port == 4040,
            r.http.concurrency_limit == 512,
            !r.http.behind_proxy,
            r.upload_dir@ == "files"@,
            r.temp_dir@ == "temp"@,
            r.prefix_length == 8,
            r.max_file_size == 1_000_000_000,
            r.max_file_name_length == 200,
            r.stats_interval == 60,
            r.fallocate,
    {
        Config {
            http: HttpConfig::default(),
            upload_dir: String::from_str("files"),
            temp_dir: String::from_str("temp"),
            prefix_length: 8,
            max_file_size: 1_000_000_000,
            max_file_name_length: 200,
            stats_interval: 60,
            fallocate: true,
        }
    }
}

/// Why no configuration file was found.
#[derive(Debug)]
pub enum FindConfigError {
    NoneFoundError,
    IoError(std::io::Error),
}

} // verus!
