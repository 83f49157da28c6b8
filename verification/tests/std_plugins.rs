use ank_kernel::json::Json;
use ank_kernel::std_plugins::{
    clean_html, dir_read_failure, file_read_failure, process_sys_request, route_fs_request,
    safe_path, FsRoute, PluginRequest,
};

#[test]
fn test_safe_path_logic() {
    // Outside a sandbox /workspace does not exist, but the path is still built.
    let p = safe_path("docs/readme.txt").unwrap();
    assert!(p.contains("workspace"));
}

#[test]
fn safe_path_drops_leading_separators() {
    assert_eq!(safe_path("//\\etc/x").unwrap(), "/workspace/etc/x");
    assert_eq!(safe_path("").unwrap(), "/workspace/");
}

#[test]
fn std_fs_test_unknown_action() {
    let input = r#"{"action": "not_exists", "params": {}}"#;
    match route_fs_request(input).unwrap() {
        FsRoute::Respond(res) => assert_eq!(res.status, "error"),
        _ => panic!("an unknown action is answered at once"),
    }
}

#[test]
fn std_fs_routes_list_and_read() {
    match route_fs_request(r#"{"action": "list_dir"}"#).unwrap() {
        FsRoute::ListDir { path, relative } => {
            assert_eq!(path, "/workspace/.");
            assert_eq!(relative, ".");
        }
        _ => panic!("list_dir expected"),
    }
    match route_fs_request(r#"{"action": "read_file", "params": {"path": "/a.txt"}}"#).unwrap() {
        FsRoute::ReadFile { path, relative } => {
            assert_eq!(path, "/workspace/a.txt");
            assert_eq!(relative, "/a.txt");
        }
        _ => panic!("read_file expected"),
    }
    match route_fs_request(r#"{"action": "read_file", "params": {}}"#) {
        Err(e) => assert_eq!(e, "Se requiere la clave 'path' para leer un archivo"),
        Ok(_) => panic!("a read without a path fails"),
    }
    assert!(route_fs_request("not json").is_err());
    assert!(route_fs_request(r#"{"params": {}}"#).is_err());
}

#[test]
fn read_failures_name_the_path_as_asked() {
    assert_eq!(dir_read_failure("docs"), "No se pudo leer el directorio: docs");
    assert_eq!(file_read_failure("/a.txt"), "No se pudo leer el archivo: /a.txt");
}

#[test]
fn test_clean_html() {
    let html = "<html><body><h1>Hola</h1><p>Mundo</p><style>body { color: red; }</style></body></html>";
    let cleaned = clean_html(html);
    assert!(cleaned.contains("Hola"));
    assert!(cleaned.contains("Mundo"));
    assert!(!cleaned.contains("color: red"));
    assert!(!cleaned.contains("<html>"));
}

#[test]
fn clean_html_trims_and_drops_empty_lines() {
    assert_eq!(clean_html("<p>  a  </p>\n\n\t<b>b</b>\r\n"), "a\nb");
    assert_eq!(clean_html("x<SCRIPT src=1>y</script>z"), "xz");
}

#[test]
fn text_after_a_style_block_is_kept() {
    let cleaned = clean_html("<p>uno</p><style>x{}</style><p>dos</p>");
    assert_eq!(cleaned, "unodos");
    assert!(!cleaned.contains("x{}"));
    assert_eq!(clean_html("<script>a()</script>\n<b>tres</b>\n<style>p{}</STYLE>cuatro"), "tres\ncuatro");
}

#[test]
fn test_process_get_time() {
    let req = PluginRequest {
        action: "get_time".to_string(),
        params: Json::Null,
    };
    let result = process_sys_request(&req);
    assert_eq!(result.status, "success");
    assert!(result.data.is_some());

    // An RFC 3339 date in UTC
    let date_str = match result.data.unwrap() {
        Json::Str(s) => s,
        _ => panic!("the time is a JSON string"),
    };
    assert!(date_str.contains("Z"));
}

#[test]
fn the_time_is_rfc3339_in_utc() {
    let req = PluginRequest { action: "get_time".to_string(), params: Json::Null };
    let t = match process_sys_request(&req).data {
        Some(Json::Str(s)) => s,
        _ => panic!("the time is a JSON string"),
    };
    let b = t.as_bytes();
    let digit = |i: usize| b[i].is_ascii_digit();
    assert!(b.len() >= 20);
    assert!((0..4).all(digit));
    assert_eq!(b[4], b'-');
    assert_eq!(b[7], b'-');
    assert_eq!(b[10], b'T');
    assert_eq!(b[13], b':');
    assert_eq!(b[16], b':');
    assert!([5, 6, 8, 9, 11, 12, 14, 15, 17, 18].iter().all(|&i| digit(i)));
    assert_eq!(*b.last().unwrap(), b'Z');
    let frac = &t[19..t.len() - 1];
    assert!(frac.is_empty() || (frac.starts_with('.') && [4, 7, 10].contains(&frac.len())));
}

#[test]
fn std_sys_test_unknown_action() {
    let req = PluginRequest {
        action: "unknown_cmd".to_string(),
        params: Json::Null,
    };
    let result = process_sys_request(&req);
    assert_eq!(result.status, "error");
    assert!(result.error.unwrap().contains("Acción desconocida"));
}

#[test]
fn cleaned_text_has_no_markup_and_no_blank_lines() {
    let pages = [
        "a<b\n\n>c>d\n\n\ne",
        "<<>>x\n \n<y>\n",
        "\n\n  <p>one</p>\n\n<p>two</p>  \n",
        ">>> quoted <<<",
    ];
    for html in pages.iter() {
        let c = clean_html(html);
        assert!(!c.contains('<') && !c.contains('>'), "{:?}", c);
        assert!(!c.contains("\n\n"), "{:?}", c);
        assert!(!c.starts_with('\n') && !c.ends_with('\n'), "{:?}", c);
    }
    assert_eq!(clean_html("\n\n  <p>one</p>\n\n<p>two</p>  \n"), "one\ntwo");
}

#[test]
fn safe_path_refuses_traversal() {
    assert_eq!(
        safe_path("../etc/passwd"),
        Err("Acceso fuera del workspace denegado: ../etc/passwd".to_string())
    );
    assert!(safe_path("/a/../../b").is_err());
    assert_eq!(safe_path("a/../b").unwrap(), "/workspace/a/../b");
    match route_fs_request(r#"{"action": "read_file", "params": {"path": "../secret"}}"#) {
        Err(e) => assert_eq!(e, "Acceso fuera del workspace denegado: ../secret"),
        Ok(_) => panic!("a read outside the workspace is refused"),
    }
}

#[test]
fn deserialisation_errors_keep_their_cause() {
    match route_fs_request("not json") {
        Err(e) => {
            assert!(e.starts_with("Error al deserializar el JSON de entrada.\n\nCaused by:\n    "));
            assert!(e.len() > "Error al deserializar el JSON de entrada.\n\nCaused by:\n    ".len());
        }
        Ok(_) => panic!("text that is not JSON is refused"),
    }
}
