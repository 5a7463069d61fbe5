//! Layered configuration: defaults, then an optional configuration file,
//! then command-line arguments, the later layers taking precedence.

use vstd::prelude::*;
use crate::error::{Result, RossbyError};
use vstd::string::StrSliceExecFns;
use crate::text::str_eq;

verus! {

/// Command-line arguments, already parsed into plain values.
pub struct Args {
    /// Path of the dataset file to serve.
    pub netcdf_file: String,
    /// Host address to bind to.
    pub host: String,
    /// Port to listen on.
    pub port: u16,
    /// Number of worker threads, when given.
    pub workers: Option<usize>,
    /// Path of an optional configuration file.
    pub config: Option<String>,
    /// Log level name.
    pub log_level: String,
}

/// Server configuration.
pub struct ServerConfig {
    /// Host address to bind to.
    pub host: String,
    /// Port to listen on.
    pub port: u16,
    /// Number of worker threads, when given.
    pub workers: Option<usize>,
    /// Largest number of data points a single request may extract.
    pub max_data_points: usize,
}

/// Data handling configuration.
pub struct DataConfig {
    /// Default interpolation method name.
    pub interpolation_method: String,
    /// Path of the dataset file, when known.
    pub file_path: Option<String>,
    /// Map from canonical dimension names to file-specific ones.
    pub dimension_aliases: Vec<(String, String)>,
}

/// Complete configuration.
pub struct Config {
    /// Server configuration.
    pub server: ServerConfig,
    /// Data handling configuration.
    pub data: DataConfig,
    /// Log level name.
    pub log_level: String,
}

/// The default host address.
pub fn default_host() -> (r: String)
    ensures
        r@ == "127.0.0.1"@,
{
    proof {
        reveal_strlit("127.0.0.1");
    }
    "127.0.0.1".to_owned()
}

/// The default port.
pub fn default_port() -> (r: u16)
    ensures
        r == 8000,
{
    8000
}

/// The default interpolation method name.
pub fn default_interpolation() -> (r: String)
    ensures
        r@ == "bilinear"@,
{
    proof {
        reveal_strlit("bilinear");
    }
    "bilinear".to_owned()
}

/// The default log level name.
pub fn default_log_level() -> (r: String)
    ensures
        r@ == "info"@,
{
    proof {
        reveal_strlit("info");
    }
    "info".to_owned()
}

/// The default extraction budget.
pub fn default_max_data_points() -> (r: usize)
    ensures
        r == 1000000,
{
    1000000
}

impl Default for ServerConfig {
    /// The default server configuration.
    fn default() -> (r: Self)
        ensures
            r.host@ == "127.0.0.1"@,
            r.port == 8000,
            r.workers is None,
            r.max_data_points == 1000000,
    {
        ServerConfig {
            host: default_host(),
            port: default_port(),
            workers: None,
            max_data_points: default_max_data_points(),
        }
    }
}

impl Default for DataConfig {
    /// The default data configuration.
    fn default() -> (r: Self)
        ensures
            r.interpolation_method@ == "bilinear"@,
            r.file_path is None,
            r.dimension_aliases@.len() == 0,
    {
        DataConfig {
            interpolation_method: default_interpolation(),
            file_path: None,
            dimension_aliases: Vec::new(),
        }
    }
}

impl Default for Config {
    /// The default configuration.
    fn default() -> (r: Self)
        ensures
            r.server.host@ == "127.0.0.1"@,
            r.server.port == 8000,
            r.server.workers is None,
            r.server.max_data_points == 1000000,
            r.data.interpolation_method@ == "bilinear"@,
            r.data.file_path is None,
            r.data.dimension_aliases@.len() == 0,
            r.log_level@ == "info"@,
    {
        Config {
            server: ServerConfig::default(),
            data: DataConfig::default(),
            log_level: default_log_level(),
        }
    }
}

impl Config {
    /// Merge another configuration into this one; the other's settings win,
    /// except that an absent worker count leaves the current one in place.
    pub fn merge(&mut self, other: Config)
        ensures
            final(self).server.host == other.server.host,
            final(self).server.port == other.server.port,
            final(self).server.max_data_points == other.server.max_data_points,
            final(self).server.workers == (if other.server.workers is Some {
                other.server.workers
            } else {
                old(self).server.workers
            }),
            final(self).data == other.data,
            final(self).log_level == other.log_level,
    {
        let workers = if other.server.workers.is_some() {
            other.server.workers
        } else {
            self.server.workers
        };
        self.server = ServerConfig {
            host: other.server.host,
            port: other.server.port,
            workers,
            max_data_points: other.server.max_data_points,
        };
        self.data = other.data;
        self.log_level = other.log_level;
    }

    /// Assemble the final configuration: defaults, overlaid with the
    /// configuration file when one was given, overlaid with the
    /// command-line arguments; the dataset path is the command-line one.
    pub fn load(args: Args, file_config: Option<Config>) -> (r: Result<(Config, String)>)
        ensures
            r is Ok,
            ({
                let (cfg, path) = r->Ok_0;
                &&& path == args.netcdf_file
                &&& cfg.server.host == args.host
                &&& cfg.server.port == args.port
                &&& cfg.log_level == args.log_level
                &&& (args.workers is Some ==> cfg.server.workers == args.workers)
                &&& match file_config {
                    Some(fc) => {
                        &&& cfg.data == fc.data
                        &&& cfg.server.max_data_points == fc.server.max_data_points
                        &&& (args.workers is None ==> cfg.server.workers == fc.server.workers)
                    },
                    None => {
                        &&& cfg.data.interpolation_method@ == "bilinear"@
                        &&& cfg.data.file_path is None
                        &&& cfg.data.dimension_aliases@.len() == 0
                        &&& cfg.server.max_data_points == 1000000
                        &&& (args.workers is None ==> cfg.server.workers is None)
                    },
                }
            }),
    {
        let mut config = Config::default();
        match file_config {
            Some(fc) => {
                config.merge(fc);
            },
            None => {},
        }
        config.server.host = args.host;
        config.server.port = args.port;
        if args.workers.is_some() {
            config.server.workers = args.workers;
        }
        config.log_level = args.log_level;
        Ok((config, args.netcdf_file))
    }

    /// Check the configuration: the host may not be empty, the port may not
    /// be zero, and the log level and interpolation method must be among
    /// the known names.
    pub fn validate(&self) -> (r: Result<()>)
        ensures
            r is Ok <==> self.spec_valid(),
            r is Err ==> r->Err_0 is Config,
            self.server.host@.len() == 0 ==> (r matches Err(RossbyError::Config { message })
                && message@ == "Server host cannot be empty"@),
            self.server.host@.len() > 0 && self.server.port == 0 ==> (r matches Err(
                RossbyError::Config { message },
            ) && message@ == "Server port cannot be 0"@),
            self.server.host@.len() > 0 && self.server.port != 0 && !(self.log_level@
                == "trace"@ || self.log_level@ == "debug"@ || self.log_level@ == "info"@
                || self.log_level@ == "warn"@ || self.log_level@ == "error"@) ==> (r matches
                Err(RossbyError::Config { message }) && message@
                == "Invalid log level; must be one of: trace, debug, info, warn, error"@),
            self.server.host@.len() > 0 && self.server.port != 0 && (self.log_level@
                == "trace"@ || self.log_level@ == "debug"@ || self.log_level@ == "info"@
                || self.log_level@ == "warn"@ || self.log_level@ == "error"@) && !(
            self.data.interpolation_method@ == "nearest"@ || self.data.interpolation_method@
                == "bilinear"@ || self.data.interpolation_method@ == "bicubic"@) ==> (r
                matches Err(RossbyError::Config { message }) && message@
                == "Invalid interpolation method; must be one of: nearest, bilinear, bicubic"@),
    {
        proof {
            reveal_strlit("trace");
            reveal_strlit("debug");
            reveal_strlit("info");
            reveal_strlit("warn");
            reveal_strlit("error");
            reveal_strlit("nearest");
            reveal_strlit("bilinear");
            reveal_strlit("bicubic");
            reveal_strlit("Server host cannot be empty");
            reveal_strlit("Server port cannot be 0");
            reveal_strlit("Invalid log level; must be one of: trace, debug, info, warn, error");
            reveal_strlit(
                "Invalid interpolation method; must be one of: nearest, bilinear, bicubic",
            );
        }
        if self.server.host.as_str().unicode_len() == 0 {
            return Err(
                RossbyError::Config { message: "Server host cannot be empty".to_owned() },
            );
        }
        if self.server.port == 0 {
            return Err(RossbyError::Config { message: "Server port cannot be 0".to_owned() });
        }
        let ll = self.log_level.as_str();
        if !(str_eq(ll, "trace") || str_eq(ll, "debug") || str_eq(ll, "info") || str_eq(
            ll,
            "warn",
        ) || str_eq(ll, "error")) {
            return Err(
                RossbyError::Config {
                    message: "Invalid log level; must be one of: trace, debug, info, warn, error".to_owned(),
                },
            );
        }
        let im = self.data.interpolation_method.as_str();
        if !(str_eq(im, "nearest") || str_eq(im, "bilinear") || str_eq(im, "bicubic")) {
            return Err(
                RossbyError::Config {
                    message:
                        "Invalid interpolation method; must be one of: nearest, bilinear, bicubic".to_owned(),
                },
            );
        }
        Ok(())
    }

    /// Whether the configuration passes validation.
    pub open spec fn spec_valid(&self) -> bool {
        &&& self.server.host@.len() > 0
        &&& self.server.port != 0
        &&& (self.log_level@ == "trace"@ || self.log_level@ == "debug"@ || self.log_level@
            == "info"@ || self.log_level@ == "warn"@ || self.log_level@ == "error"@)
        &&& (self.data.interpolation_method@ == "nearest"@ || self.data.interpolation_method@
            == "bilinear"@ || self.data.interpolation_method@ == "bicubic"@)
    }
}

} // verus!
