use askama_axum_rust_template::assets::{handle_assets, FAVICON, THEME_CSS};
use axum::http::header::CONTENT_TYPE;

#[test]
fn the_stylesheet_is_served_as_css() {
    let (status, headers, body) = handle_assets("theme.css");
    assert_eq!(status, 200);
    assert_eq!(headers.len(), 1);
    assert_eq!(headers.get(CONTENT_TYPE).unwrap(), "text/css");
    assert_eq!(body, THEME_CSS);
    assert!(!body.is_empty());
}

#[test]
fn the_icon_is_served_without_a_content_type() {
    let (status, headers, body) = handle_assets("favicon.svg");
    assert_eq!(status, 200);
    assert!(headers.is_empty());
    assert_eq!(body, FAVICON);
    assert!(body.starts_with("<svg"));
}

#[test]
fn an_unknown_name_is_not_found() {
    for path in ["does-not-exist", "missing.png", "", "/", "theme.css/", "/theme.css", "theme"] {
        let (status, headers, body) = handle_assets(path);
        assert_eq!(status, 404, "{}", path);
        assert!(headers.is_empty(), "{}", path);
        assert_eq!(body, "", "{}", path);
    }
}

#[test]
fn names_are_compared_exactly() {
    for path in ["Theme.css", "THEME.CSS", "theme.css ", " theme.css", "favicon.SVG", "Favicon.svg"] {
        let (status, headers, body) = handle_assets(path);
        assert_eq!(status, 404, "{}", path);
        assert!(headers.is_empty(), "{}", path);
        assert_eq!(body, "", "{}", path);
    }
}

#[test]
fn the_same_name_is_answered_the_same_way() {
    for path in ["theme.css", "favicon.svg", "nothing"] {
        let first = handle_assets(path);
        let second = handle_assets(path);
        assert_eq!(first, second);
    }
}
