use clipvault::models::SourceMetadata;
use clipvault::source::{
    activate_app, activate_script, app_to_restore, browser_tab, browser_tab_script, clipboard_html,
    clipboard_link_for_text, detect_source, domain_from_url, front_app_source, is_clipvault_app,
    link_from_html, normalize_domain, should_skip_source,
};
use clipvault::text::normalize_text;

fn source(app: Option<&str>, window: Option<&str>, page_title: Option<&str>, page_url: Option<&str>) -> SourceMetadata {
    SourceMetadata {
        app_name: app.map(String::from),
        window_title: window.map(String::from),
        page_url: page_url.map(String::from),
        page_title: page_title.map(String::from),
        domain: None,
    }
}

#[test]
fn extracts_matching_anchor_href_from_clipboard_html() {
    let html = r#"
          <div>
            <a href="https://example.com/general">General</a>
            <a href="https://example.com/video/123">Real teen</a>
          </div>
        "#;

    let (url, _title, domain) = link_from_html(html, "Real teen").expect("matching link");

    assert_eq!(url, "https://example.com/video/123");
    assert_eq!(domain.as_deref(), Some("example.com"));
}

#[test]
fn link_falls_back_to_first_web_anchor() {
    let html = r#"<p><a href="mailto:a@b.c">Mail</a> <a href=" https://www.Example.org/a " title="  Page  ">One</a> <a href="https://other.net/">Two</a></p>"#;
    let (url, title, domain) = link_from_html(html, "unrelated words").expect("fallback link");
    assert_eq!(url, "https://www.Example.org/a");
    assert_eq!(title.as_deref(), Some("Page"));
    assert_eq!(domain.as_deref(), Some("example.org"));
}

#[test]
fn link_label_match_ignores_case_and_spacing() {
    let html = r#"<a href="https://a.com/1">First</a><a href="https://b.com/2">The   <b>Second</b>
        Link</a>"#;
    let (url, title, _) = link_from_html(html, "  the second   LINK ").expect("match");
    assert_eq!(url, "https://b.com/2");
    assert_eq!(title, None);
}

#[test]
fn link_with_blank_title_has_no_title() {
    let html = r#"<a href="http://x.io/" title="   ">x</a>"#;
    let (url, title, domain) = link_from_html(html, "x").expect("link");
    assert_eq!(url, "http://x.io/");
    assert_eq!(title, None);
    assert_eq!(domain.as_deref(), Some("x.io"));
}

#[test]
fn no_web_anchor_gives_no_link() {
    assert_eq!(link_from_html("<p>no links</p>", "text"), None);
    assert_eq!(link_from_html(r#"<a href="ftp://files">files</a>"#, "files"), None);
    assert_eq!(clipboard_link_for_text(None, "text"), None);
    let found = clipboard_link_for_text(Some(r#"<a href="https://q.com">q</a>"#.to_string()), "q");
    assert_eq!(found.map(|l| l.0), Some("https://q.com".to_string()));
}

#[test]
fn password_manager_sources_are_skipped() {
    assert!(should_skip_source(&source(Some("1Password 7"), None, None, None)));
    assert!(should_skip_source(&source(Some("Safari"), Some("Log in"), Some("Forgot PASSWORD?"), None)));
    assert!(should_skip_source(&source(None, Some("Podaj Hasło"), None, None)));
    assert!(should_skip_source(&source(None, None, None, Some("https://vault.bitwarden.com/"))));
    assert!(should_skip_source(&source(Some("ClipVault"), None, None, None)));
    assert!(!should_skip_source(&source(Some("Safari"), Some("News"), Some("Weather"), Some("https://example.com"))));
    assert!(!should_skip_source(&SourceMetadata::default()));
}

#[test]
fn own_app_is_recognised() {
    assert!(is_clipvault_app("ClipVault"));
    assert!(is_clipvault_app("clipvault-dev"));
    assert!(!is_clipvault_app("Safari"));
    assert_eq!(app_to_restore(source(Some("ClipVault"), None, None, None)), None);
    assert_eq!(app_to_restore(source(Some("Notes"), None, None, None)), Some("Notes".to_string()));
    assert_eq!(app_to_restore(SourceMetadata::default()), None);
}

#[test]
fn domains_drop_www_and_case() {
    assert_eq!(domain_from_url("https://www.Example.com/path?q=1").as_deref(), Some("example.com"));
    assert_eq!(domain_from_url("http://sub.domain.org").as_deref(), Some("sub.domain.org"));
    assert_eq!(domain_from_url("just some text"), None);
    assert_eq!(domain_from_url("mailto:someone@example.com"), None);
    assert_eq!(normalize_domain("WWW.Example.COM"), "www.example.com");
    assert_eq!(normalize_domain("www.Example.COM"), "example.com");
    assert_eq!(normalize_domain("www.www.site.net"), "site.net");
    assert_eq!(normalize_domain("wwwx.site"), "wwwx.site");
}

#[test]
fn text_is_normalized() {
    assert_eq!(normalize_text("  Hello \n\t World  "), "hello world");
    assert_eq!(normalize_text("   "), "");
    assert_eq!(normalize_text("ÁB"), "áb");
}

#[test]
fn clipboard_html_keeps_only_markup() {
    assert_eq!(clipboard_html(Some("  <b>x</b> \n".to_string())).as_deref(), Some("<b>x</b>"));
    assert_eq!(clipboard_html(Some("plain text".to_string())), None);
    assert_eq!(clipboard_html(None), None);
}

#[test]
fn activation_script_escapes_name() {
    assert_eq!(activate_script("Notes"), "tell application \"Notes\" to activate");
    assert_eq!(activate_script("A \"B\" \\C"), "tell application \"A \\\"B\\\" \\\\C\" to activate");
    assert_eq!(activate_app("Notes", Some(String::new())), Ok(()));
    assert_eq!(
        activate_app("Notes", None),
        Err("Nie udało się przywrócić fokusa do aplikacji: Notes".to_string())
    );
}

#[test]
fn front_app_output_is_read_by_lines() {
    let s = front_app_source(Some("Safari\r\n  Google Search  \n".to_string()));
    assert_eq!(s.app_name.as_deref(), Some("Safari"));
    assert_eq!(s.window_title.as_deref(), Some("Google Search"));
    assert_eq!(s.page_url, None);
    let s = front_app_source(Some("Finder\n".to_string()));
    assert_eq!(s.app_name.as_deref(), Some("Finder"));
    assert_eq!(s.window_title, None);
    let s = front_app_source(Some("\n \n".to_string()));
    assert_eq!(s.app_name, None);
    assert_eq!(s.window_title, None);
    let s = front_app_source(None);
    assert_eq!(s.app_name, None);
}

#[test]
fn browser_scripts_depend_on_the_browser() {
    let safari = browser_tab_script("Safari").expect("safari script");
    assert!(safari.starts_with("\ntell application \"Safari\"\n"));
    assert!(safari.contains("URL of current tab of front window"));
    let chrome = browser_tab_script("Google Chrome").expect("chrome script");
    assert!(chrome.contains("tell application \"Google Chrome\""));
    assert!(chrome.contains("title of active tab of front window"));
    assert!(browser_tab_script("Brave Browser").is_some());
    assert_eq!(browser_tab_script("Finder"), None);
}

#[test]
fn browser_tab_output_is_parsed() {
    assert_eq!(
        browser_tab("https://a.com/x\r\n  Title \n"),
        Some(("https://a.com/x".to_string(), "Title".to_string()))
    );
    assert_eq!(browser_tab("https://a.com/x"), Some(("https://a.com/x".to_string(), String::new())));
    assert_eq!(browser_tab("file:///tmp/x\nTitle"), None);
    assert_eq!(browser_tab(""), None);
}

#[test]
fn detected_source_takes_browser_tab() {
    let front = source(Some("Safari"), Some("Window"), None, None);
    let s = detect_source(front, Some("https://www.News.com/a\n\n".to_string()));
    assert_eq!(s.page_url.as_deref(), Some("https://www.News.com/a"));
    assert_eq!(s.page_title.as_deref(), Some("Window"));
    assert_eq!(s.domain.as_deref(), Some("news.com"));
    let front = source(Some("Safari"), Some("Window"), None, None);
    let s = detect_source(front, Some("https://x.com\nTab title".to_string()));
    assert_eq!(s.page_title.as_deref(), Some("Tab title"));
    let front = source(Some("Notes"), Some("Window"), None, None);
    let s = detect_source(front, None);
    assert_eq!(s.page_url, None);
    let s = detect_source(SourceMetadata::default(), Some("https://x.com\nT".to_string()));
    assert_eq!(s.page_url, None);
}

#[test]
fn knowing_more_of_a_source_never_unskips_it() {
    let less = source(None, Some("Enter your Password"), None, None);
    assert!(should_skip_source(&less));
    let more = source(Some("Safari"), Some("Enter your Password"), Some("Login"), Some("https://a.b"));
    assert!(should_skip_source(&more));
    let split = source(Some("pass"), Some("word"), None, None);
    assert!(!should_skip_source(&split));
    assert!(should_skip_source(&source(Some("ΣΑΣ ClipVault"), None, None, None)));
}
