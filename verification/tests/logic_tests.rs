use lsp_ws_proxy::args::{expand_listen, split_commands};
use lsp_ws_proxy::config::{config_from_json, Config, ServerConfig};
use lsp_ws_proxy::json::Json;
use lsp_ws_proxy::message::{classify, save_target, MessageKind};
use lsp_ws_proxy::remap::{remap_message, remap_uri_to_file, remap_uri_to_source, RemapDirection};
use lsp_ws_proxy::selector::{get_command, SelectError};
use lsp_ws_proxy::util::{dec_chars_of, str_to_chars};

fn cs(s: &str) -> Vec<char> {
    str_to_chars(s)
}

fn text(v: &[char]) -> String {
    v.iter().collect()
}

#[test]
fn decimal_digits_print_exactly() {
    assert_eq!(text(&dec_chars_of(0)), "0");
    assert_eq!(text(&dec_chars_of(9999)), "9999");
    assert_eq!(text(&dec_chars_of(1030507)), "1030507");
}

#[test]
fn selector_falls_back_to_first_command() {
    // Startup list [["rust-analyzer"], ["gopls"]], unknown name, strict off.
    let commands = Some(vec![vec![cs("rust-analyzer")], vec![cs("gopls")]]);
    let r = get_command(&commands, None, &Some(cs("pyright")));
    let cmd = r.expect("fallback to the first command");
    assert_eq!(text(&cmd[0]), "rust-analyzer");
}

#[test]
fn selector_strict_refuses_unknown_name() {
    let commands = Some(vec![vec![cs("rust-analyzer")], vec![cs("gopls")]]);
    let config = Config { not_found_error: true, servers: None, sql: None };
    let r = get_command(&commands, Some(&config), &Some(cs("pyright")));
    assert_eq!(r.unwrap_err(), SelectError::UnknownServer);
}

#[test]
fn selector_named_registry_wins() {
    let commands = Some(vec![vec![cs("gopls")]]);
    let config = Config {
        not_found_error: false,
        servers: Some(vec![(
            cs("gopls"),
            ServerConfig { command: vec![cs("gopls"), cs("-remote=auto")] },
        )]),
        sql: None,
    };
    let r = get_command(&commands, Some(&config), &Some(cs("gopls")));
    let cmd = r.expect("registry entry");
    assert_eq!(cmd.len(), 2);
    assert_eq!(text(&cmd[1]), "-remote=auto");
}

#[test]
fn selector_argv0_match() {
    let commands = Some(vec![vec![cs("rust-analyzer")], vec![cs("gopls"), cs("-v")]]);
    let r = get_command(&commands, None, &Some(cs("gopls")));
    let cmd = r.expect("argv0 match");
    assert_eq!(text(&cmd[0]), "gopls");
    assert_eq!(cmd.len(), 2);
}

#[test]
fn selector_no_name_picks_first() {
    let commands = Some(vec![vec![cs("rust-analyzer")], vec![cs("gopls")]]);
    let r = get_command(&commands, None, &None);
    assert_eq!(text(&r.expect("first")[0]), "rust-analyzer");
}

#[test]
fn selector_empty_list_fails() {
    let commands: Option<Vec<Vec<Vec<char>>>> = None;
    let r = get_command(&commands, None, &None);
    assert_eq!(r.unwrap_err(), SelectError::NoServer);
}

#[test]
fn remap_source_to_file() {
    let out = remap_uri_to_file(&cs("source://src/a.rs"), &cs("file:///proj/")).unwrap();
    assert_eq!(text(&out), "file:///proj/src/a.rs");
}

#[test]
fn remap_normalizes_dot_segments() {
    let out = remap_uri_to_file(&cs("source://src/./sub/../a.rs"), &cs("file:///proj/")).unwrap();
    assert_eq!(text(&out), "file:///proj/src/a.rs");
}

#[test]
fn remap_escape_is_refused() {
    let r = remap_uri_to_file(&cs("source://../etc/passwd"), &cs("file:///proj/"));
    assert!(r.is_err());
}

#[test]
fn remap_other_scheme_passes_through() {
    let out = remap_uri_to_file(&cs("https://example.test/x"), &cs("file:///proj/")).unwrap();
    assert_eq!(text(&out), "https://example.test/x");
}

#[test]
fn remap_file_back_to_source() {
    let out = remap_uri_to_source(&cs("file:///proj/src/a.rs"), &cs("file:///proj/"));
    assert_eq!(text(&out), "source://src/a.rs");
}

#[test]
fn remap_outside_root_stays_file() {
    let out = remap_uri_to_source(&cs("file:///other/a.rs"), &cs("file:///proj/"));
    assert_eq!(text(&out), "file:///other/a.rs");
}

#[test]
fn remap_round_trip_both_ways() {
    let root = cs("file:///proj/");
    let file_uri = cs("file:///proj/src/deep/a.rs");
    let source_uri = remap_uri_to_source(&file_uri, &root);
    assert_eq!(text(&source_uri), "source://src/deep/a.rs");
    let back = remap_uri_to_file(&source_uri, &root).unwrap();
    assert_eq!(back, file_uri);
}

fn did_save_message(uri: &str) -> Json {
    Json::Obj(vec![
        (cs("method"), Json::Str(cs("textDocument/didSave"))),
        (
            cs("params"),
            Json::Obj(vec![
                (cs("text"), Json::Str(cs("x"))),
                (
                    cs("textDocument"),
                    Json::Obj(vec![(cs("uri"), Json::Str(cs(uri)))]),
                ),
            ]),
        ),
    ])
}

#[test]
fn remap_message_rewrites_uri_inside_params() {
    let msg = did_save_message("source://src/a.rs");
    let out = remap_message(RemapDirection::ToFile, msg, &cs("file:///proj/")).unwrap();
    let params = out.get(&cs("params")).expect("params");
    let td = params.get(&cs("textDocument")).expect("textDocument");
    match td.get(&cs("uri")).expect("uri") {
        Json::Str(u) => assert_eq!(text(u), "file:///proj/src/a.rs"),
        _ => panic!("uri must stay a string"),
    }
}

#[test]
fn remap_message_escape_is_fatal() {
    let msg = did_save_message("source://../../etc/passwd");
    assert!(remap_message(RemapDirection::ToFile, msg, &cs("file:///proj/")).is_err());
}

#[test]
fn classify_by_shape() {
    let req = Json::Obj(vec![
        (cs("id"), Json::Num(cs("1"))),
        (cs("method"), Json::Str(cs("initialize"))),
    ]);
    assert_eq!(classify(&req), MessageKind::Request);
    let resp = Json::Obj(vec![(cs("id"), Json::Num(cs("1")))]);
    assert_eq!(classify(&resp), MessageKind::Response);
    let note = Json::Obj(vec![(cs("method"), Json::Str(cs("initialized")))]);
    assert_eq!(classify(&note), MessageKind::Notification);
    let other = Json::Obj(vec![(cs("result"), Json::Null)]);
    assert_eq!(classify(&other), MessageKind::Other);
    assert_eq!(classify(&Json::Str(cs("x"))), MessageKind::Other);
}

#[test]
fn save_target_resolves_file_uri() {
    let msg = did_save_message("file:///proj/src/a.rs");
    let save = save_target(&msg).expect("a save");
    assert_eq!(text(&save.path), "/proj/src/a.rs");
    assert_eq!(text(&save.text), "x");
}

#[test]
fn save_target_ignores_other_schemes() {
    let msg = did_save_message("source://src/a.rs");
    assert!(save_target(&msg).is_none());
}

#[test]
fn config_parses_full_shape() {
    let j = Json::Obj(vec![
        (cs("not_found_error"), Json::Bool(true)),
        (
            cs("servers"),
            Json::Obj(vec![(
                cs("rust"),
                Json::Obj(vec![(
                    cs("command"),
                    Json::Arr(vec![Json::Str(cs("rust-analyzer"))]),
                )]),
            )]),
        ),
        (
            cs("sql"),
            Json::Obj(vec![(
                cs("mysql"),
                Json::Obj(vec![
                    (cs("host"), Json::Str(cs("127.0.0.1"))),
                    (cs("port"), Json::Num(cs("3306"))),
                    (cs("admin_username"), Json::Str(cs("root"))),
                    (cs("admin_password"), Json::Str(cs("hunter2"))),
                    (cs("proto"), Json::Str(cs("tcp"))),
                ]),
            )]),
        ),
    ]);
    let c = config_from_json(&j).expect("a valid config");
    assert!(c.not_found_error);
    let servers = c.servers.expect("servers");
    assert_eq!(servers.len(), 1);
    assert_eq!(text(&servers[0].0), "rust");
    assert_eq!(text(&servers[0].1.command[0]), "rust-analyzer");
    let sql = c.sql.expect("sql");
    assert_eq!(text(&sql[0].0), "mysql");
    assert_eq!(sql[0].1.port, 3306);
    assert_eq!(text(sql[0].1.proto.as_ref().unwrap()), "tcp");
}

#[test]
fn config_defaults_missing_members() {
    let j = Json::Obj(vec![]);
    let c = config_from_json(&j).expect("empty object is a valid config");
    assert!(!c.not_found_error);
    assert!(c.servers.is_none());
    assert!(c.sql.is_none());
}

#[test]
fn config_rejects_wrong_shapes() {
    assert!(config_from_json(&Json::Arr(vec![])).is_err());
    let bad_flag = Json::Obj(vec![(cs("not_found_error"), Json::Str(cs("yes")))]);
    assert!(config_from_json(&bad_flag).is_err());
    let bad_port = Json::Obj(vec![(
        cs("sql"),
        Json::Obj(vec![(
            cs("sqlite"),
            Json::Obj(vec![
                (cs("host"), Json::Str(cs("h"))),
                (cs("port"), Json::Num(cs("65536"))),
                (cs("admin_username"), Json::Str(cs("u"))),
                (cs("admin_password"), Json::Str(cs("p"))),
            ]),
        )]),
    )]);
    assert!(config_from_json(&bad_port).is_err());
}

#[test]
fn config_accepts_port_bound() {
    let j = Json::Obj(vec![(
        cs("sql"),
        Json::Obj(vec![(
            cs("postgres"),
            Json::Obj(vec![
                (cs("host"), Json::Str(cs("h"))),
                (cs("port"), Json::Num(cs("65535"))),
                (cs("admin_username"), Json::Str(cs("u"))),
                (cs("admin_password"), Json::Str(cs("p"))),
            ]),
        )]),
    )]);
    let c = config_from_json(&j).expect("port at the bound");
    assert_eq!(c.sql.unwrap()[0].1.port, 65535);
}

#[test]
fn argv_splits_on_delimiters() {
    let args = vec![cs("proxy"), cs("-l"), cs("9999"), cs("--"), cs("rust-analyzer"), cs("--"), cs("gopls"), cs("-v")];
    let (opts, commands) = split_commands(&args);
    assert_eq!(opts.len(), 3);
    assert_eq!(text(&opts[0]), "proxy");
    let commands = commands.expect("two command lines");
    assert_eq!(commands.len(), 2);
    assert_eq!(text(&commands[0][0]), "rust-analyzer");
    assert_eq!(text(&commands[1][1]), "-v");
}

#[test]
fn argv_without_delimiter_has_no_commands() {
    let args = vec![cs("proxy"), cs("-s")];
    let (opts, commands) = split_commands(&args);
    assert_eq!(opts.len(), 2);
    assert!(commands.is_none());
}

#[test]
fn listen_digits_expand() {
    let out = expand_listen(&cs("8888")).expect("digit value expands");
    assert_eq!(text(&out), "0.0.0.0:8888");
}

#[test]
fn listen_address_passes_to_validation() {
    assert!(expand_listen(&cs("127.0.0.1:9999")).is_none());
}
