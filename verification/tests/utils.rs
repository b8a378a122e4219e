use std::path::{Path, PathBuf};

use lib::image_url::{image_source, relative_image_path, ImageSource};
use lib::list_marker::list_item_prefix;

#[test]
fn relative_image_urls_resolve_under_the_base_and_nothing_else_does() {
    let base = Path::new("repo");
    let resolved = |url: &str| relative_image_path(url, "repo").map(PathBuf::from);

    assert_eq!(resolved("assets/hero.png"), Some(base.join("assets/hero.png")));
    assert_eq!(resolved("./a.png"), Some(base.join("./a.png")));
    assert_eq!(resolved("../up.png"), Some(base.join("../up.png")));
    assert_eq!(resolved("my%20shot.png#dark"), Some(base.join("my shot.png")));
    assert_eq!(resolved("a.png?raw=true"), Some(base.join("a.png")));
    assert_eq!(resolved("docs/a:b.png"), Some(base.join("docs/a:b.png")));
    assert_eq!(resolved("100%.png"), Some(base.join("100%.png")), "a lone % stays");

    for url in [
        "https://example.com/logo.png",
        "data:image/png;base64,iVBORw0KGgo=",
        "file:///C:/secret.png",
        r"C:\images\logo.png",
        "C:logo.png",
        "/absolute/logo.png",
        r"\\attacker\share\x.png",
        "//attacker/share/x.png",
        "",
        "#only-a-fragment",
        "%ff%fe.png",
    ] {
        assert_eq!(resolved(url), None, "{url:?} must not resolve");
    }
}

#[test]
fn an_image_source_reads_the_disk_only_under_a_base() {
    let url = "assets/hero.png".to_string();
    assert!(matches!(image_source(&url, None), ImageSource::Uri(_)));
    match image_source(&url, Some("repo")) {
        ImageSource::Path(path) => {
            assert_eq!(PathBuf::from(path), PathBuf::from("repo").join("assets/hero.png"))
        }
        _ => panic!("expected a path under the base"),
    }
    let remote = "https://example.com/a.png".to_string();
    assert!(matches!(
        image_source(&remote, Some("repo")),
        ImageSource::Uri(_)
    ));
}

#[test]
fn test_image_source() {
    fn assert_uri(url: &str) {
        match image_source(url, None) {
            ImageSource::Uri(uri) => assert_eq!(uri, url),
            other => panic!("expected Uri for {url:?}, got {other:?}"),
        }
    }
    assert_uri("https://example.com/logo.png");
    assert_uri("http://example.com/logo.png");
    assert_uri("data:image/png;base64,iVBORw0KGgo=");

    assert_uri("website/public/logo.svg");
    assert_uri("./images/a.png");
    assert_uri("../images/a.png");
    assert_uri("/absolute/path/logo.svg");
    assert_uri("file:///absolute/path/logo.svg");
    assert_uri(r"C:\images\logo.png");
    assert_uri("docs/a:b.png");
}

#[test]
fn test_list_item_prefix() {
    assert_eq!(list_item_prefix(0, true, 0), "1. ");
    assert_eq!(list_item_prefix(1, true, 0), "2. ");
    assert_eq!(list_item_prefix(2, true, 0), "3. ");
    assert_eq!(list_item_prefix(10, true, 0), "11. ");
    assert_eq!(list_item_prefix(0, true, 1), "A. ");
    assert_eq!(list_item_prefix(1, true, 1), "B. ");
    assert_eq!(list_item_prefix(2, true, 1), "C. ");
    assert_eq!(list_item_prefix(0, true, 2), "a. ");
    assert_eq!(list_item_prefix(1, true, 2), "b. ");
    assert_eq!(list_item_prefix(6, true, 2), "g. ");
    assert_eq!(list_item_prefix(0, true, 1), "A. ");
    assert_eq!(list_item_prefix(0, true, 2), "a. ");
    assert_eq!(list_item_prefix(0, false, 0), "• ");
    assert_eq!(list_item_prefix(0, false, 1), "◦ ");
    assert_eq!(list_item_prefix(0, false, 2), "▪ ");
    assert_eq!(list_item_prefix(0, false, 3), "‣ ");
    assert_eq!(list_item_prefix(0, false, 4), "⁃ ");
}
