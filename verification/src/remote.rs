//! The remote mirror: who may call it, whether its server runs, under
//! which address it is reached, and what it answers for the files of the
//! front end.

use crate::registry::PathKind;
use crate::text::{
    chars_of, decimal, is_blank, is_blank_text, push_decimal, same_text, string_of, strip_leading,
    stripped_leading, trim, trimmed,
};
use vstd::prelude::*;

verus! {

/// The header that carries the token of a remote call.
pub const TOKEN_HEADER: &'static str = "x-manifold-token";

/// The host that a server binds where none is given.
pub const ANY_HOST: &'static str = "0.0.0.0";

/// Whether the remote server runs, and where.
#[derive(Clone, Debug, PartialEq, Eq)]
pub struct RemoteServerStatus {
    pub running: bool,
    pub host: String,
    pub port: u16,
    pub server_url: String,
}

/// The status of the remote server as texts.
pub struct RemoteServerStatusView {
    pub running: bool,
    pub host: Seq<char>,
    pub port: u16,
    pub server_url: Seq<char>,
}

impl View for RemoteServerStatus {
    type V = RemoteServerStatusView;

    open spec fn view(&self) -> RemoteServerStatusView {
        RemoteServerStatusView {
            running: self.running,
            host: self.host@,
            port: self.port,
            server_url: self.server_url@,
        }
    }
}

/// The place of the one remote server that may run: it is empty while
/// the server is stopped, and holds the status of the server while it
/// runs.
pub struct RemoteServerSlot {
    active: Option<RemoteServerStatus>,
}

/// Why a remote call or the start of the remote server was turned down.
#[derive(Debug, PartialEq, Eq)]
pub enum RemoteError {
    /// The call does not carry the token of the server.
    Unauthorized,
    /// No token was given for the server.
    TokenRequired,
    /// No workspace root was given for the server.
    WorkspaceRootRequired,
    /// The workspace root of the server is missing.
    WorkspaceMissing { path: String },
    /// The workspace root of the server is no directory.
    WorkspaceNotDirectory,
}

/// An error of the remote mirror as texts.
pub enum RemoteErrorView {
    Unauthorized,
    TokenRequired,
    WorkspaceRootRequired,
    WorkspaceMissing { path: Seq<char> },
    WorkspaceNotDirectory,
}

impl View for RemoteError {
    type V = RemoteErrorView;

    open spec fn view(&self) -> RemoteErrorView {
        match self {
            RemoteError::Unauthorized => RemoteErrorView::Unauthorized,
            RemoteError::TokenRequired => RemoteErrorView::TokenRequired,
            RemoteError::WorkspaceRootRequired => RemoteErrorView::WorkspaceRootRequired,
            RemoteError::WorkspaceMissing { path } => RemoteErrorView::WorkspaceMissing {
                path: path@,
            },
            RemoteError::WorkspaceNotDirectory => RemoteErrorView::WorkspaceNotDirectory,
        }
    }
}

/// What the start of the remote server does.
#[derive(Debug, PartialEq, Eq)]
pub enum StartPlan {
    /// The server runs already: this is its status, and nothing is bound.
    AlreadyRunning(RemoteServerStatus),
    /// A listener is to be bound to the host, and the server is to serve
    /// the workspace root.
    Bind { host: String, workspace_root: String },
}

/// What the start of the remote server does, as texts.
pub enum StartPlanView {
    AlreadyRunning(RemoteServerStatusView),
    Bind { host: Seq<char>, workspace_root: Seq<char> },
}

impl View for StartPlan {
    type V = StartPlanView;

    open spec fn view(&self) -> StartPlanView {
        match self {
            StartPlan::AlreadyRunning(status) => StartPlanView::AlreadyRunning(status@),
            StartPlan::Bind { host, workspace_root } => StartPlanView::Bind {
                host: host@,
                workspace_root: workspace_root@,
            },
        }
    }
}

/// What the server answers for a file of the front end.
#[derive(Debug, PartialEq, Eq)]
pub struct StaticResponse {
    pub status: u16,
    pub content_type: String,
    pub body: Vec<u8>,
}

/// The status of a server that does not run.
pub open spec fn stopped_status() -> RemoteServerStatusView {
    RemoteServerStatusView { running: false, host: ""@, port: 0, server_url: ""@ }
}

/// The status of a server that runs.
pub open spec fn running_status(
    host: Seq<char>,
    port: u16,
    server_url: Seq<char>,
) -> RemoteServerStatusView {
    RemoteServerStatusView { running: true, host, port, server_url }
}

/// The token that a call carries: that of its header, or the empty text
/// where it has none.
pub open spec fn carried_token(provided: Option<Seq<char>>) -> Seq<char> {
    match provided {
        Some(token) => token,
        None => ""@,
    }
}

/// The workspace root that a remote call works on: the one that it
/// names, or that of the server where it names none.
pub open spec fn workspace_root_of(requested: Seq<char>, fallback: Seq<char>) -> Seq<char> {
    if is_blank(requested) {
        fallback
    } else {
        requested
    }
}

/// The host that the server binds: the one asked for, trimmed, or every
/// address where none is asked for.
pub open spec fn bind_host_of(host: Seq<char>) -> Seq<char> {
    if is_blank(host) {
        "0.0.0.0"@
    } else {
        trim(host)
    }
}

/// The address `http://` host `:` port.
pub open spec fn http_url(host: Seq<char>, port: u16) -> Seq<char> {
    "http://"@ + host + ":"@ + decimal(port as nat)
}

/// The address under which the server is reached from other machines:
/// where it binds every address and the machine knows its address in the
/// local network, that address; and else the address that it is bound to.
pub open spec fn advertised_url(
    bind_host: Seq<char>,
    local_ip: Option<Seq<char>>,
    bound_ip: Seq<char>,
    port: u16,
) -> Seq<char> {
    if bind_host == "0.0.0.0"@ && local_ip is Some {
        http_url(local_ip->0, port)
    } else {
        http_url(bound_ip, port)
    }
}

/// The HTTP status that tells of an error.
pub open spec fn status_of(error: RemoteErrorView) -> u16 {
    match error {
        RemoteErrorView::Unauthorized => 401,
        _ => 400,
    }
}

/// The message that tells of an error.
pub open spec fn remote_message_of(error: RemoteErrorView) -> Seq<char> {
    match error {
        RemoteErrorView::Unauthorized => "Unauthorized remote token."@,
        RemoteErrorView::TokenRequired => "Remote server token is required."@,
        RemoteErrorView::WorkspaceRootRequired => {
            "Workspace root is required before starting remote server."@
        },
        RemoteErrorView::WorkspaceMissing { path } => "Workspace root does not exist: "@ + path,
        RemoteErrorView::WorkspaceNotDirectory => {
            "Workspace root must be a directory before starting remote server."@
        },
    }
}

/// What a plan for the start of the server, or the error in its place,
/// is to the contracts.
pub open spec fn start_view(plan: Result<StartPlan, RemoteError>) -> Result<
    StartPlanView,
    RemoteErrorView,
> {
    match plan {
        Ok(step) => Ok(step@),
        Err(error) => Err(error@),
    }
}

/// What the start of the server does, where the slot holds `active`, and
/// the workspace root leads to `found`: it is turned down without a
/// token, without a workspace root, and where the root is missing or no
/// directory; it hands out the status of the server that runs; and else
/// it binds.
pub open spec fn start_of(
    active: Option<RemoteServerStatusView>,
    host: Seq<char>,
    token: Seq<char>,
    workspace_root: Seq<char>,
    found: PathKind,
) -> Result<StartPlanView, RemoteErrorView> {
    if is_blank(token) {
        Err(RemoteErrorView::TokenRequired)
    } else if is_blank(workspace_root) {
        Err(RemoteErrorView::WorkspaceRootRequired)
    } else if found == PathKind::Missing {
        Err(RemoteErrorView::WorkspaceMissing { path: trim(workspace_root) })
    } else if found == PathKind::File {
        Err(RemoteErrorView::WorkspaceNotDirectory)
    } else {
        match active {
            Some(status) => Ok(StartPlanView::AlreadyRunning(status)),
            None => Ok(
                StartPlanView::Bind {
                    host: bind_host_of(host),
                    workspace_root: trim(workspace_root),
                },
            ),
        }
    }
}

/// The file of the front end that a request path asks for: the root
/// document for the path `/`, and else the path without its leading
/// slashes.
pub open spec fn asset_path_of(uri_path: Seq<char>) -> Seq<char> {
    if uri_path == "/"@ {
        "index.html"@
    } else {
        strip_leading(uri_path, '/')
    }
}

/// The content type of a file with the given extension.
pub open spec fn content_type_of(extension: Option<Seq<char>>) -> Seq<char> {
    match extension {
        Some(text) => if text == "html"@ {
            "text/html; charset=utf-8"@
        } else if text == "js"@ {
            "application/javascript; charset=utf-8"@
        } else if text == "css"@ {
            "text/css; charset=utf-8"@
        } else if text == "json"@ {
            "application/json; charset=utf-8"@
        } else if text == "svg"@ {
            "image/svg+xml"@
        } else if text == "png"@ {
            "image/png"@
        } else if text == "jpg"@ || text == "jpeg"@ {
            "image/jpeg"@
        } else if text == "webp"@ {
            "image/webp"@
        } else {
            "application/octet-stream"@
        },
        None => "application/octet-stream"@,
    }
}

/// The address of this machine in the local network as a text, from
/// `local_ip_address::local_ip`, or nothing where it cannot be told.
/// Nothing is said of the address: it depends on the machine.
#[verifier::external_body]
fn local_ip_text() -> Option<String> {
    local_ip_address::local_ip().ok().map(|ip| ip.to_string())
}

impl RemoteError {
    /// The HTTP status that tells of this error.
    pub fn status(&self) -> (code: u16)
        ensures
            code == status_of(self@),
    {
        match self {
            RemoteError::Unauthorized => 401,
            _ => 400,
        }
    }

    /// The message that tells of this error.
    pub fn message(&self) -> (text: String)
        ensures
            text@ == remote_message_of(self@),
    {
        match self {
            RemoteError::Unauthorized => "Unauthorized remote token.".to_string(),
            RemoteError::TokenRequired => "Remote server token is required.".to_string(),
            RemoteError::WorkspaceRootRequired => {
                "Workspace root is required before starting remote server.".to_string()
            },
            RemoteError::WorkspaceMissing { path } => {
                let mut text = "Workspace root does not exist: ".to_string();
                text.append(path.as_str());
                text
            },
            RemoteError::WorkspaceNotDirectory => {
                "Workspace root must be a directory before starting remote server.".to_string()
            },
        }
    }
}

/// The status of a server that does not run.
pub fn stopped_remote_status() -> (status: RemoteServerStatus)
    ensures
        status@ == stopped_status(),
{
    RemoteServerStatus { running: false, host: "".to_string(), port: 0, server_url: "".to_string() }
}

/// Whether a remote call may go on: it has to carry the token of the
/// server. A call without the header carries the empty token.
pub fn require_remote_token(provided: Option<&str>, expected: &str) -> (checked: Result<
    (),
    RemoteError,
>)
    ensures
        checked is Ok <==> carried_token(
            match provided {
                Some(token) => Some(token@),
                None => None,
            },
        ) == expected@,
        checked matches Err(error) ==> error == RemoteError::Unauthorized,
{
    let carried = match provided {
        Some(token) => token,
        None => "",
    };
    if same_text(carried, expected) {
        Ok(())
    } else {
        Err(RemoteError::Unauthorized)
    }
}

/// The workspace root that a remote call works on.
pub fn resolve_workspace_root(requested: String, fallback: &str) -> (root: String)
    ensures
        root@ == workspace_root_of(requested@, fallback@),
{
    let chars = chars_of(requested.as_str());
    if is_blank_text(&chars) {
        fallback.to_string()
    } else {
        requested
    }
}

/// The address `http://` host `:` port.
pub fn http_url_of(host: &str, port: u16) -> (url: String)
    ensures
        url@ == http_url(host@, port),
{
    let mut url = "http://".to_string();
    url.append(host);
    url.append(":");
    let mut digits: Vec<char> = Vec::new();
    push_decimal(&mut digits, port as u128);
    let number = string_of(&digits);
    url.append(number.as_str());
    assert(digits@ == decimal(port as nat)) by {
        assert(Seq::<char>::empty() + decimal(port as nat) == decimal(port as nat));
    }
    url
}

/// The address under which the server is reached from other machines,
/// where `local_ip` is the address of this machine in the local network
/// if it is known.
pub fn advertised_url_for(bind_host: &str, local_ip: Option<&str>, bound_ip: &str, port: u16) -> (url:
    String)
    ensures
        url@ == advertised_url(
            bind_host@,
            match local_ip {
                Some(ip) => Some(ip@),
                None => None,
            },
            bound_ip@,
            port,
        ),
{
    if same_text(bind_host, ANY_HOST) {
        match local_ip {
            Some(ip) => {
                return http_url_of(ip, port);
            },
            None => {},
        }
    }
    http_url_of(bound_ip, port)
}

/// The address under which the server is reached from other machines. It
/// is bound to the address `bound_ip` and the port `port`.
pub fn advertised_remote_url(bind_host: &str, bound_ip: &str, port: u16) -> (url: String)
    ensures
        bind_host@ != "0.0.0.0"@ ==> url@ == http_url(bound_ip@, port),
        exists|local_ip: Option<Seq<char>>|
            url@ == #[trigger] advertised_url(bind_host@, local_ip, bound_ip@, port),
{
    if same_text(bind_host, ANY_HOST) {
        let found = local_ip_text();
        let url = match &found {
            Some(ip) => advertised_url_for(bind_host, Some(ip.as_str()), bound_ip, port),
            None => advertised_url_for(bind_host, None, bound_ip, port),
        };
        proof {
            let local_ip: Option<Seq<char>> = match found {
                Some(ip) => Some(ip@),
                None => None,
            };
            assert(url@ == advertised_url(bind_host@, local_ip, bound_ip@, port));
        }
        url
    } else {
        let url = advertised_url_for(bind_host, None, bound_ip, port);
        assert(url@ == advertised_url(bind_host@, None, bound_ip@, port));
        url
    }
}

impl RemoteServerSlot {
    /// The status that the slot holds, if the server runs.
    pub closed spec fn active(&self) -> Option<RemoteServerStatusView> {
        match self.active {
            Some(status) => Some(status@),
            None => None,
        }
    }

    /// Whether what the slot holds is the status of a server that runs.
    #[verifier::type_invariant]
    spec fn holds_running_status(&self) -> bool {
        match self.active {
            Some(status) => status.running,
            None => true,
        }
    }

    /// The status that the slot shows: that of the server that runs, or
    /// that of a server that does not run.
    pub open spec fn shown(&self) -> RemoteServerStatusView {
        match self.active() {
            Some(status) => status,
            None => stopped_status(),
        }
    }

    /// The slot of a server that does not run.
    pub fn new() -> (slot: RemoteServerSlot)
        ensures
            slot.active() is None,
    {
        RemoteServerSlot { active: None }
    }

    /// Whether the server runs.
    pub fn is_running(&self) -> (running: bool)
        ensures
            running == self.active() is Some,
            running == self.shown().running,
    {
        proof {
            use_type_invariant(self);
        }
        self.active.is_some()
    }

    /// The status of the server.
    pub fn status(&self) -> (status: RemoteServerStatus)
        ensures
            status@ == self.shown(),
    {
        match &self.active {
            Some(active) => RemoteServerStatus {
                running: active.running,
                host: active.host.clone(),
                port: active.port,
                server_url: active.server_url.clone(),
            },
            None => stopped_remote_status(),
        }
    }

    /// What the start of the server does. `found` is what the trimmed
    /// workspace root leads to. The slot stays as it is: a server that
    /// was bound is recorded by `record_started`.
    pub fn plan_start(&self, host: &str, token: &str, workspace_root: &str, found: PathKind) -> (plan:
        Result<StartPlan, RemoteError>)
        ensures
            start_view(plan) == start_of(self.active(), host@, token@, workspace_root@, found),
    {
        if is_blank_text(&chars_of(token)) {
            return Err(RemoteError::TokenRequired);
        }
        let root = chars_of(workspace_root);
        if is_blank_text(&root) {
            return Err(RemoteError::WorkspaceRootRequired);
        }
        let root = string_of(&trimmed(&root));
        match found {
            PathKind::Missing => {
                return Err(RemoteError::WorkspaceMissing { path: root });
            },
            PathKind::File => {
                return Err(RemoteError::WorkspaceNotDirectory);
            },
            PathKind::Directory => {},
        }
        if self.is_running() {
            return Ok(StartPlan::AlreadyRunning(self.status()));
        }
        let given = chars_of(host);
        let bind_host = if is_blank_text(&given) {
            ANY_HOST.to_string()
        } else {
            string_of(&trimmed(&given))
        };
        Ok(StartPlan::Bind { host: bind_host, workspace_root: root })
    }

    /// Records that the server runs, bound to `host` and `port` and
    /// reached under `server_url`, and hands out its status.
    pub fn record_started(&mut self, host: String, port: u16, server_url: String) -> (status:
        RemoteServerStatus)
        ensures
            status@ == running_status(host@, port, server_url@),
            final(self).active() == Some(status@),
    {
        self.active = Some(
            RemoteServerStatus {
                running: true,
                host: host.clone(),
                port,
                server_url: server_url.clone(),
            },
        );
        RemoteServerStatus { running: true, host, port, server_url }
    }

    /// Empties the slot and hands out the status of a server that does
    /// not run. Tells whether a server ran, which is then to be shut
    /// down.
    pub fn stop(&mut self) -> (stopped: (RemoteServerStatus, bool))
        ensures
            stopped.0@ == stopped_status(),
            stopped.1 == old(self).active() is Some,
            final(self).active() is None,
    {
        let ran = self.active.is_some();
        self.active = None;
        (stopped_remote_status(), ran)
    }
}

/// Starting the server while it runs hands out the status under which it
/// was started, and binds nothing.
pub proof fn lemma_start_while_running(
    status: RemoteServerStatusView,
    host: Seq<char>,
    token: Seq<char>,
    workspace_root: Seq<char>,
)
    requires
        !is_blank(token),
        !is_blank(workspace_root),
    ensures
        start_of(Some(status), host, token, workspace_root, PathKind::Directory) == Ok::<
            StartPlanView,
            RemoteErrorView,
        >(StartPlanView::AlreadyRunning(status)),
{
}

/// The file of the front end that a request path asks for.
pub fn frontend_asset_path(uri_path: &str) -> (path: String)
    ensures
        path@ == asset_path_of(uri_path@),
{
    if same_text(uri_path, "/") {
        "index.html".to_string()
    } else {
        let chars = chars_of(uri_path);
        string_of(&stripped_leading(&chars, '/'))
    }
}

/// The content type of a file with the given extension.
pub fn content_type_for(extension: Option<&str>) -> (content_type: &'static str)
    ensures
        content_type@ == content_type_of(
            match extension {
                Some(text) => Some(text@),
                None => None,
            },
        ),
{
    match extension {
        Some(text) => {
            if same_text(text, "html") {
                "text/html; charset=utf-8"
            } else if same_text(text, "js") {
                "application/javascript; charset=utf-8"
            } else if same_text(text, "css") {
                "text/css; charset=utf-8"
            } else if same_text(text, "json") {
                "application/json; charset=utf-8"
            } else if same_text(text, "svg") {
                "image/svg+xml"
            } else if same_text(text, "png") {
                "image/png"
            } else if same_text(text, "jpg") || same_text(text, "jpeg") {
                "image/jpeg"
            } else if same_text(text, "webp") {
                "image/webp"
            } else {
                "application/octet-stream"
            }
        },
        None => "application/octet-stream",
    }
}

/// What the server says while the files of the front end are missing.
pub const MISSING_FRONTEND_MESSAGE: &'static str =
    "Frontend dist missing. Run `npm --prefix src-ui run build` before starting remote server.";

/// The file of the front end that is served for a request: the file asked
/// for where it is there, and else the root document.
pub fn served_asset_path(requested: String, is_file: bool) -> (path: String)
    ensures
        path@ == if is_file {
            requested@
        } else {
            "index.html"@
        },
{
    if is_file {
        requested
    } else {
        "index.html".to_string()
    }
}

/// What the server answers while the files of the front end are missing:
/// that its service is unavailable, and why, as plain text.
pub fn missing_frontend_response() -> (response: StaticResponse)
    ensures
        response.status == 503,
        response.content_type@ == "text/plain; charset=utf-8"@,
        response.body@ == vstd::utf8::encode_utf8(MISSING_FRONTEND_MESSAGE@),
{
    StaticResponse {
        status: 503,
        content_type: "text/plain; charset=utf-8".to_string(),
        body: MISSING_FRONTEND_MESSAGE.as_bytes_vec(),
    }
}

/// What the server answers with a file of the front end: its bytes, under
/// the content type of its extension.
pub fn asset_response(extension: Option<&str>, body: Vec<u8>) -> (response: StaticResponse)
    ensures
        response.status == 200,
        response.content_type@ == content_type_of(
            match extension {
                Some(text) => Some(text@),
                None => None,
            },
        ),
        response.body == body,
{
    StaticResponse { status: 200, content_type: content_type_for(extension).to_string(), body }
}

} // verus!
