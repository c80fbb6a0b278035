//! Runtime configuration. The values are read from the process environment
//! at startup by the surrounding binary; the library only consumes them.

use vstd::prelude::*;

verus! {

/// All configuration the application needs at runtime.
#[derive(Clone)]
pub struct AppConfig {
    /// Name of the storage account that holds the two tables.
    pub azure_storage_account: String,
    /// Access key of the storage account.
    pub azure_storage_access_key: String,
    /// Identity tenant the login flow goes through.
    pub azure_tenant_id: String,
    /// OAuth2 client id of the application registration.
    pub azure_client_id: String,
    /// OAuth2 client secret of the application registration.
    pub azure_client_secret: String,
    /// Public-facing URL of this application, used for redirect URIs.
    pub app_url: String,
    /// Secret that signs session cookies.
    pub session_secret: String,
    /// Port to listen on.
    pub port: u16,
}

} // verus!
