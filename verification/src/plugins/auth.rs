//! Authorization plugins: how a token is checked and what a successful
//! authentication binds on the server.
use vstd::prelude::*;

use crate::server::policy::{checks_token, token_check, AuthConfigLite, TokenCheck};
use crate::server::state::{auth_applied, ServerState};

verus! {

/// An authorization plugin. `validate` says how a token is checked under the
/// server's authentication settings (a remote check is made by the caller);
/// `apply` binds an authenticated uid to a client.
pub trait AuthPlugin {
    fn validate(&self, auth_config: &Option<AuthConfigLite>, token: &str) -> TokenCheck;

    fn apply(&self, server: &mut ServerState, client_id: &str, uid: &str);
}

/// The built-in authorization plugin.
pub struct DefaultAuthPlugin;

impl DefaultAuthPlugin {
    /// The built-in plugin.
    pub fn new() -> Self {
        DefaultAuthPlugin
    }

    /// The plugin's name.
    pub fn name(&self) -> (n: String)
        ensures
            n@ == "builtin-auth"@,
    {
        "builtin-auth".to_string()
    }
}

impl AuthPlugin for DefaultAuthPlugin {
    /// Checks tokens as the server does.
    fn validate(&self, auth_config: &Option<AuthConfigLite>, token: &str) -> (r: TokenCheck)
        ensures
            checks_token(token@, *auth_config, r),
    {
        token_check(token, auth_config)
    }

    /// Binds `uid` to `client_id` on `server`.
    fn apply(&self, server: &mut ServerState, client_id: &str, uid: &str)
        ensures
            auth_applied(*old(server), *final(server), client_id@, uid@),
    {
        server.apply_auth(client_id, uid);
    }
}

} // verus!
