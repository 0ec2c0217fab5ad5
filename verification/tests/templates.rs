use askama_axum_rust_template::templates::{page_reply, AboutUsTemplate, MyTemplate};
use axum::http::header::CONTENT_TYPE;

#[test]
fn a_rendered_page_is_sent_as_html() {
    let html = "<!doctype html>\n<title>Home</title>\n<h1>Welcome</h1>\n".to_string();
    let (status, headers, body) = page_reply(Ok(html.clone()));
    assert_eq!(status, 200);
    assert_eq!(headers.len(), 1);
    assert_eq!(headers.get(CONTENT_TYPE).unwrap(), "text/html; charset=utf-8");
    assert_eq!(body, html);
}

#[test]
fn an_empty_page_is_still_a_page() {
    let (status, headers, body) = page_reply(Ok(String::new()));
    assert_eq!(status, 200);
    assert_eq!(headers.get(CONTENT_TYPE).unwrap(), "text/html; charset=utf-8");
    assert_eq!(body, "");
}

#[test]
fn a_page_outside_ascii_is_sent_unchanged() {
    let html = "<p>\u{dc}ber uns \u{2014} \u{1f980}</p>".to_string();
    let (status, _, body) = page_reply(Ok(html.clone()));
    assert_eq!(status, 200);
    assert_eq!(body, html);
}

#[test]
fn a_failure_to_render_is_an_empty_500() {
    let (status, headers, body) = page_reply(Err(askama::Error::Fmt(std::fmt::Error)));
    assert_eq!(status, 500);
    assert!(headers.is_empty());
    assert_eq!(body, "");
}

#[test]
fn the_pages_take_no_data() {
    assert_eq!(AboutUsTemplate::new(), AboutUsTemplate {});
    assert_eq!(AboutUsTemplate::new(), AboutUsTemplate::new());
    assert_eq!(MyTemplate {}, MyTemplate {});
}
