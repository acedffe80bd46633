//! The service configuration: plain values as the configuration file
//! carries them. Loading the file itself happens outside the library.

use vstd::prelude::*;

verus! {

/// Where the HTTP listener binds.
pub struct CFGServer {
    pub host: String,
    pub port: u16,
}

/// Which database backs the metadata store.
pub struct CFGDatabase {
    pub provider: String,
    pub sqlite: CFGDatabaseSQLite,
    pub postgres: CFGDatabasePostgres,
}

pub struct CFGDatabaseSQLite {
    pub path: String,
}

pub struct CFGDatabasePostgres {
    pub user: String,
    pub password: String,
    pub host: String,
    pub port: u16,
    pub database: String,
}

/// The bucket directory and its limits.
pub struct CFGBucket {
    pub path: String,
    pub max_upload_size_mb: u64,
    /// The multipart session TTL, in seconds.
    pub request_expiration_seconds: i64,
}

/// The one credential that signs write requests.
pub struct CFGAccount {
    pub access_key: String,
    pub secret_key: String,
}

/// Telemetry; an empty DSN disables it.
pub struct CFGSentry {
    pub dsn: String,
}

pub struct CFGDebug {
    pub log_level: Option<String>,
}

/// The whole configuration.
pub struct AppConfig {
    pub server: CFGServer,
    pub database: CFGDatabase,
    pub bucket: CFGBucket,
    pub account: CFGAccount,
    pub sentry: CFGSentry,
    pub debug: Option<CFGDebug>,
}

impl AppConfig {
    /// The request body limit in bytes: the configured mebibytes, saturated
    /// at the largest representable count.
    pub fn max_upload_bytes(&self) -> (r: u64)
        ensures
            self.bucket.max_upload_size_mb * crate::BYTES_PER_MB <= u64::MAX ==> r
                == self.bucket.max_upload_size_mb * crate::BYTES_PER_MB,
            self.bucket.max_upload_size_mb * crate::BYTES_PER_MB > u64::MAX ==> r == u64::MAX,
    {
        let mb = self.bucket.max_upload_size_mb;
        if mb <= u64::MAX / crate::BYTES_PER_MB {
            proof {
                assert(mb * crate::BYTES_PER_MB <= u64::MAX) by (nonlinear_arith)
                    requires
                        mb <= u64::MAX / crate::BYTES_PER_MB,
                ;
            }
            mb * crate::BYTES_PER_MB
        } else {
            proof {
                assert(mb * crate::BYTES_PER_MB > u64::MAX) by (nonlinear_arith)
                    requires
                        mb > u64::MAX / crate::BYTES_PER_MB,
                ;
            }
            u64::MAX
        }
    }
}

} // verus!
