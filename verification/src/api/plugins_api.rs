//! The plugin endpoints: the runtime plugin listing, event-bus subscriptions
//! and plugin-to-plugin messages.
use vstd::prelude::*;

use crate::plugin_host::runtime::{PluginRuntimeSummary, PluginStatus, StatusView};
use crate::storage::opt_view;
use crate::text::concat_str;

verus! {

/// The priority of a subscription that names none.
pub fn default_priority() -> (p: i32)
    ensures
        p == 10,
{
    10
}

/// A plugin's subscription to an event pattern.
pub struct SubscribeRequest {
    pub subscriber: String,
    pub event_pattern: String,
    pub priority: i32,
}

/// The end of a plugin's subscription to an event pattern.
pub struct UnsubscribeRequest {
    pub subscriber: String,
    pub event_pattern: String,
}

/// The outcome of a subscription request.
pub struct SubscribeResponse {
    pub status: String,
    pub message: String,
}

/// The outcome of a plugin-to-plugin message.
pub struct PluginMessageResponse {
    pub status: String,
    pub delivered: bool,
    pub error: Option<String>,
}

/// A test message for the plugins that take messages.
pub struct TestMessageRequest {
    pub content: String,
    pub from_uid: Option<String>,
    pub to_uid: Option<String>,
}

/// A plugin as listed by the runtime endpoint.
pub struct RuntimePluginView {
    pub name: String,
    pub version: Option<String>,
    pub status: String,
}

/// How Rust's `Debug` writes the string `s` (quoted and escaped).
pub uninterp spec fn debug_str(s: Seq<char>) -> Seq<char>;

/// Formats `s` with `format!("{:?}", s)`, std's `Debug` for `str`. What comes
/// out is named, not stated: it equals the name applied to `s`.
#[verifier::external_body]
fn debug_quoted(s: &str) -> (r: String)
    ensures
        r@ == debug_str(s@),
{
    format!("{:?}", s)
}

/// The `Debug` text of a plugin status.
pub open spec fn status_label(s: StatusView) -> Seq<char> {
    match s {
        StatusView::Installed => "Installed"@,
        StatusView::Starting => "Starting"@,
        StatusView::Running => "Running"@,
        StatusView::Stopping => "Stopping"@,
        StatusView::Stopped => "Stopped"@,
        StatusView::Error(e) => "Error("@ + debug_str(e) + ")"@,
    }
}

/// The status without a message whose `Debug` text is `l`, if any: how a
/// listing's status text is read back.
pub open spec fn status_from_label(l: Seq<char>) -> Option<StatusView> {
    if l == "Installed"@ {
        Some(StatusView::Installed)
    } else if l == "Starting"@ {
        Some(StatusView::Starting)
    } else if l == "Running"@ {
        Some(StatusView::Running)
    } else if l == "Stopping"@ {
        Some(StatusView::Stopping)
    } else if l == "Stopped"@ {
        Some(StatusView::Stopped)
    } else {
        None
    }
}

/// A status's text names that status: read back, the text of a status
/// without a message gives the same status; an error's text is `Error(..)`,
/// which reads back as no such status; and two statuses with the same text
/// are the same status (errors only with the same quoted message text).
pub proof fn lemma_status_text_names_status(a: StatusView, b: StatusView)
    ensures
        !(a is Error) ==> status_from_label(status_label(a)) == Some(a),
        a is Error ==> status_from_label(status_label(a)) is None,
        status_label(a) == status_label(b) ==> (a is Error <==> b is Error),
        status_label(a) == status_label(b) && !(a is Error) ==> a == b,
        status_label(a) == status_label(b) && a is Error ==> debug_str(a->Error_0) == debug_str(b->Error_0),
{
    reveal_strlit("Installed");
    reveal_strlit("Starting");
    reveal_strlit("Running");
    reveal_strlit("Stopping");
    reveal_strlit("Stopped");
    reveal_strlit("Error(");
    reveal_strlit(")");
    assert("Installed"@[0] != "Starting"@[0]);
    assert("Installed"@[0] != "Running"@[0]);
    assert("Installed"@[0] != "Stopping"@[0]);
    assert("Installed"@[0] != "Stopped"@[0]);
    assert("Starting"@[0] != "Running"@[0]);
    assert("Starting"@[2] != "Stopping"@[2]);
    assert("Starting"@.len() != "Stopped"@.len());
    assert("Running"@[0] != "Stopping"@[0]);
    assert("Running"@[0] != "Stopped"@[0]);
    assert("Stopping"@.len() != "Stopped"@.len());
    if a is Error {
        let la = status_label(a);
        assert(la[0] == 'E');
        assert(la != "Installed"@ && la != "Starting"@ && la != "Running"@ && la != "Stopping"@ && la != "Stopped"@) by {
            assert("Installed"@[0] != 'E');
            assert("Starting"@[0] != 'E');
            assert("Running"@[0] != 'E');
            assert("Stopping"@[0] != 'E');
            assert("Stopped"@[0] != 'E');
        }
    }
    if b is Error {
        let lb = status_label(b);
        assert(lb[0] == 'E');
        assert("Installed"@[0] != 'E');
        assert("Starting"@[0] != 'E');
        assert("Running"@[0] != 'E');
        assert("Stopping"@[0] != 'E');
        assert("Stopped"@[0] != 'E');
    }
    if a is Error && b is Error && status_label(a) == status_label(b) {
        let x = debug_str(a->Error_0);
        let y = debug_str(b->Error_0);
        let la = "Error("@ + x + ")"@;
        let lb = "Error("@ + y + ")"@;
        assert(la.len() == lb.len());
        assert(x =~= la.subrange(6, 6 + x.len() as int));
        assert(y =~= lb.subrange(6, 6 + y.len() as int));
    }
}

/// The `Debug` text of a plugin status.
pub fn status_text(s: &PluginStatus) -> (r: String)
    ensures
        r@ == status_label(s@),
{
    match s {
        PluginStatus::Installed => "Installed".to_string(),
        PluginStatus::Starting => "Starting".to_string(),
        PluginStatus::Running => "Running".to_string(),
        PluginStatus::Stopping => "Stopping".to_string(),
        PluginStatus::Stopped => "Stopped".to_string(),
        PluginStatus::Error(e) => {
            let head = concat_str("Error(", debug_quoted(e.as_str()).as_str());
            concat_str(head.as_str(), ")")
        },
    }
}

/// The listing of a plugin: its name, version and status text.
pub fn plugin_summary_to_view(summary: PluginRuntimeSummary) -> (v: RuntimePluginView)
    ensures
        v.name@ == summary.name@,
        opt_view(v.version) == opt_view(summary.version),
        v.status@ == status_label(summary.status@),
{
    let status = status_text(&summary.status);
    RuntimePluginView { name: summary.name, version: summary.version, status }
}

/// The sender and recipient of a test message, with their defaults
/// (`test_user` and the empty uid).
pub fn test_message_parties(req: &TestMessageRequest) -> (r: (String, String))
    ensures
        r.0@ == match req.from_uid { Some(u) => u@, None => "test_user"@ },
        r.1@ == match req.to_uid { Some(u) => u@, None => ""@ },
{
    let from = match &req.from_uid {
        Some(u) => u.clone(),
        None => "test_user".to_string(),
    };
    let to = match &req.to_uid {
        Some(u) => u.clone(),
        None => "".to_string(),
    };
    (from, to)
}

/// The answer to a plugin-to-plugin message: 200 with whether it was
/// delivered, or 500 with the error.
pub fn message_reply(outcome: Result<bool, String>) -> (r: (u16, PluginMessageResponse))
    ensures
        match outcome {
            Ok(d) => r.0 == 200 && r.1.status@ == "ok"@ && r.1.delivered == d && r.1.error is None,
            Err(e) => r.0 == 500 && r.1.status@ == "error"@ && !r.1.delivered
                && opt_view(r.1.error) == Some("Failed to send message: "@ + e@),
        },
{
    match outcome {
        Ok(d) => (200, PluginMessageResponse { status: "ok".to_string(), delivered: d, error: None }),
        Err(e) => (500, PluginMessageResponse {
            status: "error".to_string(),
            delivered: false,
            error: Some(concat_str("Failed to send message: ", e.as_str())),
        }),
    }
}

} // verus!
