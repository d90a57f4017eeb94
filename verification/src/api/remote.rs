//! The endpoints of remote (HTTP) plugins: register, reconnect, heartbeat,
//! list, acknowledge, read the configuration, stop.
use vstd::prelude::*;

use crate::remote_plugins::{
    caps_view, reconnected, summary_of, token_check, with_heartbeat, PluginInfoView, RemotePluginError,
    RemotePluginManager, RemotePluginSummary,
};
use crate::ids::{is_ascii_alphanumeric, is_hyphenated_uuid};
use crate::text::strings_view;

verus! {

/// Registration of a remote plugin.
pub struct RegisterPayload {
    pub name: String,
    pub callback_url: String,
    pub capabilities: Vec<String>,
}

/// A heartbeat of a remote plugin.
pub struct HeartbeatPayload {
    pub token: String,
}

/// A reconnect of a remote plugin, with its new callback and perhaps new
/// capabilities.
pub struct ReconnectPayload {
    pub token: String,
    pub callback_url: String,
    pub capabilities: Option<Vec<String>>,
}

/// The acknowledgement of an event by a remote plugin.
pub struct AckPayload {
    pub token: String,
    pub event_id: String,
}

/// A configuration request of a remote plugin.
pub struct ConfigQuery {
    pub token: String,
}

/// A stop request of a remote plugin.
pub struct StopPayload {
    pub token: String,
}

/// The body of an answer to a remote plugin.
pub enum RemoteBody {
    /// The new plugin's id, token and callback.
    Registered { plugin_id: String, token: String, callback_url: String },
    /// The plugin's id and new callback; its status is `reconnected`.
    Reconnected { plugin_id: String, callback_url: String },
    /// Status `ok`.
    Done,
    /// The registered plugins.
    Plugins(Vec<RemotePluginSummary>),
    /// Status `ok` and the acknowledged event's type.
    Acked { event_type: String },
    /// The plugin configuration of the server.
    Config,
    /// Status `stopped` and the plugin's id.
    Stopped { plugin_id: String },
    /// An error with its text.
    Error(String),
}

/// An HTTP status code and a body.
pub struct RemoteReply {
    pub status: u16,
    pub body: RemoteBody,
}

/// The text of an error.
pub open spec fn error_text(e: RemotePluginError) -> Seq<char> {
    match e {
        RemotePluginError::InvalidToken => "invalid token"@,
        RemotePluginError::PluginNotFound => "plugin not found"@,
        RemotePluginError::EventNotOwned => "event not owned by plugin"@,
        RemotePluginError::EventNotFound => "event not found"@,
    }
}

/// `b` is the error body of `e`.
pub open spec fn is_error_body(b: RemoteBody, e: RemotePluginError) -> bool {
    match b {
        RemoteBody::Error(s) => s@ == error_text(e),
        _ => false,
    }
}

fn error_reply(status: u16, e: RemotePluginError) -> (r: RemoteReply)
    ensures
        r.status == status,
        is_error_body(r.body, e),
{
    RemoteReply { status, body: RemoteBody::Error(e.message()) }
}

/// Registers a remote plugin; the answer (200) carries its new id, token and
/// callback.
pub fn register_plugin(mgr: &mut RemotePluginManager, payload: RegisterPayload) -> (r: RemoteReply)
    ensures
        r.status == 200,
        r.body matches RemoteBody::Registered { plugin_id, token, callback_url }
            && final(mgr).plugins() == old(mgr).plugins().insert(plugin_id@, (plugin_id@, payload.name@, payload.callback_url@, token@, strings_view(payload.capabilities@), final(mgr).plugins()[plugin_id@].5, final(mgr).plugins()[plugin_id@].6))
            && callback_url@ == payload.callback_url@
            && (exists|u: Seq<char>| is_hyphenated_uuid(u) && plugin_id@ == "plg_"@ + u)
            && token@.len() == 32 && (forall|i: int| 0 <= i < 32 ==> is_ascii_alphanumeric(#[trigger] token@[i])),
        final(mgr).pending() == old(mgr).pending(),
{
    let info = mgr.register(payload.name, payload.callback_url, payload.capabilities);
    RemoteReply {
        status: 200,
        body: RemoteBody::Registered { plugin_id: info.plugin_id, token: info.token, callback_url: info.callback_url },
    }
}

/// Reconnects a remote plugin: 200 with its id and new callback, or 400 with
/// the error.
pub fn reconnect_plugin(mgr: &mut RemotePluginManager, plugin_id: &str, payload: ReconnectPayload) -> (r: RemoteReply)
    ensures
        final(mgr).pending() == old(mgr).pending(),
        match token_check(old(mgr).plugins(), plugin_id@, payload.token@) {
            Err(e) => r.status == 400 && is_error_body(r.body, e) && final(mgr).plugins() == old(mgr).plugins(),
            Ok(_) => r.status == 200 && (r.body matches RemoteBody::Reconnected { plugin_id: id, callback_url }
                && id@ == old(mgr).plugins()[plugin_id@].0 && callback_url@ == payload.callback_url@)
                && (exists|now: i64, seen: i64| final(mgr).plugins() == old(mgr).plugins().insert(plugin_id@,
                    #[trigger] reconnected(old(mgr).plugins()[plugin_id@], payload.callback_url@, caps_view(payload.capabilities), now, seen))),
        },
{
    match mgr.reconnect(plugin_id, payload.token.as_str(), payload.callback_url, payload.capabilities) {
        Ok(info) => RemoteReply {
            status: 200,
            body: RemoteBody::Reconnected { plugin_id: info.plugin_id, callback_url: info.callback_url },
        },
        Err(e) => error_reply(400, e),
    }
}

/// Records a heartbeat: 200 (`ok`) or 400 with the error.
pub fn heartbeat_plugin(mgr: &mut RemotePluginManager, plugin_id: &str, payload: &HeartbeatPayload) -> (r: RemoteReply)
    ensures
        final(mgr).pending() == old(mgr).pending(),
        match token_check(old(mgr).plugins(), plugin_id@, payload.token@) {
            Err(e) => r.status == 400 && is_error_body(r.body, e) && final(mgr).plugins() == old(mgr).plugins(),
            Ok(_) => r.status == 200 && r.body is Done && (exists|now: i64, seen: i64| final(mgr).plugins()
                == old(mgr).plugins().insert(plugin_id@, #[trigger] with_heartbeat(old(mgr).plugins()[plugin_id@], now, seen))),
        },
{
    match mgr.heartbeat(plugin_id, payload.token.as_str()) {
        Ok(()) => RemoteReply { status: 200, body: RemoteBody::Done },
        Err(e) => error_reply(400, e),
    }
}

/// Lists the remote plugins (200).
pub fn list_plugins(mgr: &RemotePluginManager) -> (r: RemoteReply)
    ensures
        r.status == 200,
        r.body matches RemoteBody::Plugins(l) && l@.len() == mgr.plugins().len()
            && (forall|i: int| 0 <= i < l@.len() ==> mgr.plugins().contains_key(#[trigger] l@[i]@.0)
                && l@[i]@ == summary_of(mgr.plugins()[l@[i]@.0])),
{
    RemoteReply { status: 200, body: RemoteBody::Plugins(mgr.list()) }
}

/// Acknowledges an event: 200 with its type, or 400 with the error.
pub fn ack_event(mgr: &mut RemotePluginManager, plugin_id: &str, payload: &AckPayload) -> (r: RemoteReply)
    ensures
        final(mgr).plugins() == old(mgr).plugins(),
        match token_check(old(mgr).plugins(), plugin_id@, payload.token@) {
            Err(e) => r.status == 400 && is_error_body(r.body, e) && final(mgr).pending() == old(mgr).pending(),
            Ok(_) => if !old(mgr).pending().contains_key(payload.event_id@) {
                r.status == 400 && is_error_body(r.body, RemotePluginError::EventNotFound)
                    && final(mgr).pending() == old(mgr).pending()
            } else {
                final(mgr).pending() == old(mgr).pending().remove(payload.event_id@)
                    && if old(mgr).pending()[payload.event_id@].0 != plugin_id@ {
                        r.status == 400 && is_error_body(r.body, RemotePluginError::EventNotOwned)
                    } else {
                        r.status == 200 && (r.body matches RemoteBody::Acked { event_type }
                            && event_type@ == old(mgr).pending()[payload.event_id@].1)
                    }
            },
        },
{
    match mgr.ack_event(plugin_id, payload.token.as_str(), payload.event_id.as_str()) {
        Ok(t) => RemoteReply { status: 200, body: RemoteBody::Acked { event_type: t } },
        Err(e) => error_reply(400, e),
    }
}

/// Answers a configuration request: 200 (the configuration) for a valid
/// token, 401 with the error otherwise.
pub fn get_config(mgr: &RemotePluginManager, plugin_id: &str, query: &ConfigQuery) -> (r: RemoteReply)
    ensures
        match token_check(mgr.plugins(), plugin_id@, query.token@) {
            Err(e) => r.status == 401 && is_error_body(r.body, e),
            Ok(_) => r.status == 200 && r.body is Config,
        },
{
    match mgr.validate(plugin_id, query.token.as_str()) {
        Ok(()) => RemoteReply { status: 200, body: RemoteBody::Config },
        Err(e) => error_reply(401, e),
    }
}

/// Stops (unregisters) a remote plugin: 200 (`stopped`, its id) or 400 with
/// the error.
pub fn stop_plugin(mgr: &mut RemotePluginManager, plugin_id: &str, payload: &StopPayload) -> (r: RemoteReply)
    ensures
        match token_check(old(mgr).plugins(), plugin_id@, payload.token@) {
            Err(e) => r.status == 400 && is_error_body(r.body, e) && final(mgr).plugins() == old(mgr).plugins()
                && final(mgr).pending() == old(mgr).pending(),
            Ok(_) => r.status == 200 && (r.body matches RemoteBody::Stopped { plugin_id: id } && id@ == plugin_id@)
                && final(mgr).plugins() == old(mgr).plugins().remove(plugin_id@)
                && final(mgr).pending() == crate::remote_plugins::pending_not_of(old(mgr).pending(), plugin_id@),
        },
{
    match mgr.unregister(plugin_id, payload.token.as_str()) {
        Ok(()) => RemoteReply { status: 200, body: RemoteBody::Stopped { plugin_id: plugin_id.to_string() } },
        Err(e) => error_reply(400, e),
    }
}

} // verus!
