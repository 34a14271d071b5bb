use manifold_core::registry::PathKind;
use manifold_core::remote::{
    advertised_remote_url, advertised_url_for, asset_response, content_type_for,
    frontend_asset_path, http_url_of, missing_frontend_response, require_remote_token,
    resolve_workspace_root, served_asset_path, stopped_remote_status, RemoteError, RemoteServerSlot,
    RemoteServerStatus, StartPlan, ANY_HOST, MISSING_FRONTEND_MESSAGE, TOKEN_HEADER,
};

fn running(host: &str, port: u16, url: &str) -> RemoteServerStatus {
    RemoteServerStatus { running: true, host: host.to_string(), port, server_url: url.to_string() }
}

#[test]
fn stopped_status_is_empty() {
    assert_eq!(
        stopped_remote_status(),
        RemoteServerStatus { running: false, host: String::new(), port: 0, server_url: String::new() }
    );
}

#[test]
fn a_call_needs_the_token_of_the_server() {
    assert_eq!(TOKEN_HEADER, "x-manifold-token");
    assert_eq!(require_remote_token(Some("secret"), "secret"), Ok(()));
    assert_eq!(require_remote_token(Some("Secret"), "secret"), Err(RemoteError::Unauthorized));
    assert_eq!(require_remote_token(Some("secret "), "secret"), Err(RemoteError::Unauthorized));
    assert_eq!(require_remote_token(Some(""), "secret"), Err(RemoteError::Unauthorized));
    assert_eq!(require_remote_token(None, "secret"), Err(RemoteError::Unauthorized));
    assert_eq!(require_remote_token(None, ""), Ok(()));
    assert_eq!(RemoteError::Unauthorized.status(), 401);
    assert_eq!(RemoteError::Unauthorized.message(), "Unauthorized remote token.");
}

#[test]
fn a_call_without_workspace_root_works_on_that_of_the_server() {
    assert_eq!(resolve_workspace_root(String::new(), "/srv/w"), "/srv/w");
    assert_eq!(resolve_workspace_root("  ".to_string(), "/srv/w"), "/srv/w");
    assert_eq!(resolve_workspace_root(" /other ".to_string(), "/srv/w"), " /other ");
}

#[test]
fn start_is_turned_down_without_token_or_workspace() {
    let slot = RemoteServerSlot::new();
    assert_eq!(slot.plan_start("", " ", "/w", PathKind::Directory), Err(RemoteError::TokenRequired));
    assert_eq!(slot.plan_start("", "t", "  ", PathKind::Directory), Err(RemoteError::WorkspaceRootRequired));
    assert_eq!(slot.plan_start("", "", "", PathKind::Missing), Err(RemoteError::TokenRequired));
    assert_eq!(
        slot.plan_start("", "t", " /w ", PathKind::Missing),
        Err(RemoteError::WorkspaceMissing { path: "/w".to_string() })
    );
    assert_eq!(slot.plan_start("", "t", "/w", PathKind::File), Err(RemoteError::WorkspaceNotDirectory));
}

#[test]
fn start_binds_the_host_asked_for_or_every_address() {
    let slot = RemoteServerSlot::new();
    assert_eq!(ANY_HOST, "0.0.0.0");
    assert_eq!(
        slot.plan_start("  ", "t", " /w ", PathKind::Directory),
        Ok(StartPlan::Bind { host: "0.0.0.0".to_string(), workspace_root: "/w".to_string() })
    );
    assert_eq!(
        slot.plan_start(" 127.0.0.1 ", "t", "/w", PathKind::Directory),
        Ok(StartPlan::Bind { host: "127.0.0.1".to_string(), workspace_root: "/w".to_string() })
    );
}

#[test]
fn starting_twice_hands_out_the_status_of_the_server_that_runs() {
    let mut slot = RemoteServerSlot::new();
    assert!(!slot.is_running());
    assert_eq!(slot.status(), stopped_remote_status());
    let started = slot.record_started("0.0.0.0".to_string(), 4100, "http://10.0.0.5:4100".to_string());
    assert_eq!(started, running("0.0.0.0", 4100, "http://10.0.0.5:4100"));
    assert!(slot.is_running());
    assert_eq!(slot.status(), started);
    assert_eq!(
        slot.plan_start("127.0.0.1", "other", "/elsewhere", PathKind::Directory),
        Ok(StartPlan::AlreadyRunning(running("0.0.0.0", 4100, "http://10.0.0.5:4100")))
    );
    assert_eq!(slot.status(), started);
    assert_eq!(slot.plan_start("", "", "/w", PathKind::Directory), Err(RemoteError::TokenRequired));
}

#[test]
fn stopping_empties_the_slot() {
    let mut slot = RemoteServerSlot::new();
    assert_eq!(slot.stop(), (stopped_remote_status(), false));
    slot.record_started("h".to_string(), 1, "http://h:1".to_string());
    assert_eq!(slot.stop(), (stopped_remote_status(), true));
    assert!(!slot.is_running());
    assert_eq!(slot.status(), stopped_remote_status());
    assert_eq!(slot.stop(), (stopped_remote_status(), false));
    assert_eq!(
        slot.plan_start("h", "t", "/w", PathKind::Directory),
        Ok(StartPlan::Bind { host: "h".to_string(), workspace_root: "/w".to_string() })
    );
}

#[test]
fn every_start_error_has_its_message_and_status() {
    assert_eq!(RemoteError::TokenRequired.message(), "Remote server token is required.");
    assert_eq!(
        RemoteError::WorkspaceRootRequired.message(),
        "Workspace root is required before starting remote server."
    );
    assert_eq!(
        RemoteError::WorkspaceMissing { path: "/gone".to_string() }.message(),
        "Workspace root does not exist: /gone"
    );
    assert_eq!(
        RemoteError::WorkspaceNotDirectory.message(),
        "Workspace root must be a directory before starting remote server."
    );
    assert_eq!(RemoteError::TokenRequired.status(), 400);
    assert_eq!(RemoteError::WorkspaceNotDirectory.status(), 400);
}

#[test]
fn addresses_are_written_with_host_and_port() {
    assert_eq!(http_url_of("127.0.0.1", 8080), "http://127.0.0.1:8080");
    assert_eq!(http_url_of("::1", 0), "http://::1:0");
    assert_eq!(http_url_of("h", 65535), "http://h:65535");
}

#[test]
fn the_advertised_address_prefers_the_local_network() {
    assert_eq!(advertised_url_for("0.0.0.0", Some("192.168.1.7"), "0.0.0.0", 4100), "http://192.168.1.7:4100");
    assert_eq!(advertised_url_for("0.0.0.0", None, "0.0.0.0", 4100), "http://0.0.0.0:4100");
    assert_eq!(advertised_url_for("127.0.0.1", Some("192.168.1.7"), "127.0.0.1", 80), "http://127.0.0.1:80");
    assert_eq!(advertised_remote_url("127.0.0.1", "127.0.0.1", 4100), "http://127.0.0.1:4100");
    let open = advertised_remote_url("0.0.0.0", "0.0.0.0", 4100);
    assert!(open.starts_with("http://"));
    assert!(open.ends_with(":4100"));
}

#[test]
fn request_paths_name_files_of_the_front_end() {
    assert_eq!(frontend_asset_path("/"), "index.html");
    assert_eq!(frontend_asset_path("/assets/app.js"), "assets/app.js");
    assert_eq!(frontend_asset_path("//assets//app.js"), "assets//app.js");
    assert_eq!(frontend_asset_path(""), "");
    assert_eq!(frontend_asset_path("//"), "");
    assert_eq!(served_asset_path("assets/app.js".to_string(), true), "assets/app.js");
    assert_eq!(served_asset_path("assets/gone.js".to_string(), false), "index.html");
}

#[test]
fn content_types_go_by_extension() {
    assert_eq!(content_type_for(Some("html")), "text/html; charset=utf-8");
    assert_eq!(content_type_for(Some("js")), "application/javascript; charset=utf-8");
    assert_eq!(content_type_for(Some("css")), "text/css; charset=utf-8");
    assert_eq!(content_type_for(Some("json")), "application/json; charset=utf-8");
    assert_eq!(content_type_for(Some("svg")), "image/svg+xml");
    assert_eq!(content_type_for(Some("png")), "image/png");
    assert_eq!(content_type_for(Some("jpg")), "image/jpeg");
    assert_eq!(content_type_for(Some("jpeg")), "image/jpeg");
    assert_eq!(content_type_for(Some("webp")), "image/webp");
    assert_eq!(content_type_for(Some("HTML")), "application/octet-stream");
    assert_eq!(content_type_for(Some("")), "application/octet-stream");
    assert_eq!(content_type_for(None), "application/octet-stream");
}

#[test]
fn answers_for_files_of_the_front_end() {
    let missing = missing_frontend_response();
    assert_eq!(missing.status, 503);
    assert_eq!(missing.content_type, "text/plain; charset=utf-8");
    assert_eq!(
        MISSING_FRONTEND_MESSAGE,
        "Frontend dist missing. Run `npm --prefix src-ui run build` before starting remote server."
    );
    assert_eq!(missing.body, MISSING_FRONTEND_MESSAGE.as_bytes().to_vec());
    let found = asset_response(Some("css"), vec![1, 2, 3]);
    assert_eq!(found.status, 200);
    assert_eq!(found.content_type, "text/css; charset=utf-8");
    assert_eq!(found.body, vec![1, 2, 3]);
}
