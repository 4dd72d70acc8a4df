use ruxius::webview::{
    error_data_url, error_html, html_escape, percent_encode, splash_html, splash_start, splash_step,
    SplashAction, SplashEvent,
};

#[test]
fn html_escape_replaces_the_four_specials() {
    assert_eq!(html_escape("a & b < c > d \"e\" 'f'"), "a &amp; b &lt; c &gt; d &quot;e&quot; 'f'");
    assert_eq!(html_escape(""), "");
}

#[test]
fn escaped_text_has_no_markup() {
    let out = html_escape("<script>alert(\"x\")</script>");
    assert!(!out.contains('<') && !out.contains('>') && !out.contains('"'));
}

#[test]
fn percent_encode_keeps_only_unreserved_bytes() {
    assert_eq!(percent_encode("AZaz09-_.~"), "AZaz09-_.~");
    assert_eq!(percent_encode("a b/<é>"), "a%20b%2F%3C%C3%A9%3E");
    assert!(percent_encode("<html>\n\"x\"").chars().all(|c| c.is_ascii_alphanumeric() || "-_.~%".contains(c)));
}

#[test]
fn splash_shows_the_escaped_title() {
    let page = splash_html("My <App>");
    assert!(page.starts_with("<!doctype html>"));
    assert!(page.contains("<div class=\"title\">Starting My &lt;App&gt;...</div>"));
    assert!(page.ends_with("</div></body></html>"));
}

#[test]
fn error_page_is_a_data_url_of_the_escaped_message() {
    let html = error_html("port & <busy>");
    assert!(html.contains("<div class=\"detail\">port &amp; &lt;busy&gt;</div>"));
    let url = error_data_url("port & <busy>");
    assert_eq!(url, format!("data:text/html,{}", percent_encode(&html)));
}

#[test]
fn window_navigates_when_ready_and_shows_failures() {
    let mut s = splash_start();
    match splash_step(&mut s, SplashEvent::BackendReady("http://127.0.0.1:8123".to_string())) {
        SplashAction::LoadUrl(u) => assert_eq!(u, "http://127.0.0.1:8123"),
        _ => panic!("expected a navigation"),
    }
    match splash_step(&mut s, SplashEvent::BackendFailed("boom".to_string())) {
        SplashAction::LoadUrl(u) => assert_eq!(u, error_data_url("boom")),
        _ => panic!("expected the error page"),
    }
    assert!(matches!(splash_step(&mut s, SplashEvent::Other), SplashAction::Wait));
}

#[test]
fn shutdown_runs_once_however_often_close_is_asked() {
    let mut s = splash_start();
    assert!(matches!(splash_step(&mut s, SplashEvent::CloseRequested), SplashAction::Exit { run_on_exit: true }));
    assert!(matches!(splash_step(&mut s, SplashEvent::Other), SplashAction::Wait));
    assert!(matches!(splash_step(&mut s, SplashEvent::CloseRequested), SplashAction::Exit { run_on_exit: false }));
}

fn unescape(t: &str) -> String {
    t.replace("&lt;", "<").replace("&gt;", ">").replace("&quot;", "\"").replace("&amp;", "&")
}

#[test]
fn escaped_html_unescapes_to_the_text() {
    let s = "<b title=\"x\">&</b>";
    let e = html_escape(s);
    assert_eq!(e, "&lt;b title=&quot;x&quot;&gt;&amp;&lt;/b&gt;");
    assert_eq!(unescape(&e), s);
    let tricky = "&amp; &lt; already";
    assert_eq!(unescape(&html_escape(tricky)), tricky);
}

fn percent_decode(t: &str) -> Vec<u8> {
    let b = t.as_bytes();
    let mut out = Vec::new();
    let mut i = 0;
    while i < b.len() {
        if b[i] == b'%' && i + 2 < b.len() {
            let h = u8::from_str_radix(std::str::from_utf8(&b[i + 1..i + 3]).unwrap(), 16).unwrap();
            out.push(h);
            i += 3;
        } else {
            out.push(b[i]);
            i += 1;
        }
    }
    out
}

#[test]
fn percent_encoded_text_decodes_to_its_bytes() {
    let s = "a b<\u{e9}";
    let e = percent_encode(s);
    assert_eq!(e, "a%20b%3C%C3%A9");
    assert_eq!(percent_decode(&e), s.as_bytes());
    assert_eq!(percent_decode(&percent_encode("100%~_-.")), b"100%~_-.");
}
