use std::path::{Path, PathBuf};

use lib::decimal::push_decimal;
use lib::image_url::{has_scheme, image_source, plain_relative_target, relative_image_path, ImageSource};
use lib::list_marker::list_item_prefix;
use lib::path_text::{path_components, ComponentKind};
use lib::percent::{decode_percent_escapes, percent_decoded};

fn joined(base: &str, rel: &str) -> String {
    Path::new(base).join(rel).to_string_lossy().into_owned()
}

#[test]
fn decimal_numerals_are_written_without_leading_zeros() {
    for (n, text) in [(0usize, "0"), (7, "7"), (10, "10"), (1234567890, "1234567890")] {
        let mut s = String::from("#");
        push_decimal(&mut s, n);
        assert_eq!(s, format!("#{text}"));
    }
}

#[test]
fn the_largest_numbered_item_gets_the_largest_numeral() {
    assert_eq!(list_item_prefix(usize::MAX - 1, true, 0), format!("{}. ", usize::MAX));
}

#[test]
fn letter_markers_cycle_every_twenty_six_items() {
    assert_eq!(list_item_prefix(25, true, 1), "Z. ");
    assert_eq!(list_item_prefix(26, true, 1), "A. ");
    assert_eq!(list_item_prefix(27, true, 3), "b. ");
    assert_eq!(list_item_prefix(3 + 26 * 4, true, 2), list_item_prefix(3, true, 2));
}

#[test]
fn top_level_numbers_are_distinct() {
    assert_ne!(list_item_prefix(0, true, 0), list_item_prefix(9, true, 0));
    assert_ne!(list_item_prefix(1, true, 0), list_item_prefix(10, true, 0));
}

#[test]
fn bullets_depend_on_the_depth_alone_and_stop_at_the_fifth() {
    assert_eq!(list_item_prefix(0, false, 1), list_item_prefix(41, false, 1));
    assert_eq!(list_item_prefix(3, false, 9), "⁃ ");
    assert_eq!(list_item_prefix(3, false, usize::MAX), "⁃ ");
}

#[test]
fn markers_end_in_a_space() {
    for ix in [0usize, 5, 99] {
        for depth in [0usize, 1, 2, 5] {
            for ordered in [true, false] {
                let m = list_item_prefix(ix, ordered, depth);
                assert!(m.ends_with(' '));
                if ordered {
                    assert!(m.ends_with(". "));
                }
            }
        }
    }
}

#[test]
fn escapes_decode_to_their_bytes() {
    assert_eq!(decode_percent_escapes(b"a%2Fb"), b"a/b".to_vec());
    assert_eq!(decode_percent_escapes(b"%41%62"), b"Ab".to_vec());
    assert_eq!(decode_percent_escapes(b"%ff"), vec![0xffu8]);
    assert_eq!(decode_percent_escapes(b"%4"), b"%4".to_vec());
    assert_eq!(decode_percent_escapes(b"%zz%"), b"%zz%".to_vec());
    assert_eq!(decode_percent_escapes(b"%%41"), b"%A".to_vec());
}

#[test]
fn decoded_text_must_be_utf8() {
    assert_eq!(percent_decoded("%e4%b8%ad"), Some("\u{4e2d}".to_string()));
    assert_eq!(percent_decoded("%ff%fe.png"), None);
    assert_eq!(percent_decoded("%C3"), None);
}

#[test]
fn text_without_percent_decodes_to_itself() {
    for text in ["", "plain text", "caf\u{e9}/na\u{ef}ve.png", "a#b?c"] {
        assert_eq!(percent_decoded(text), Some(text.to_string()));
    }
}

#[test]
fn schemes_follow_rfc_3986() {
    assert!(has_scheme("https://example.com"));
    assert!(has_scheme("a+b-c.d9:rest"));
    assert!(has_scheme("C:logo.png"));
    assert!(!has_scheme("1abc:x"));
    assert!(!has_scheme(":x"));
    assert!(!has_scheme("docs/a:b.png"));
    assert!(!has_scheme("no colon"));
    assert!(!has_scheme("\u{e9}t\u{e9}:x"));
    assert!(!has_scheme(""));
}

#[test]
fn the_plain_relative_target_drops_query_and_fragment() {
    assert_eq!(plain_relative_target("my%20shot.png#dark"), Some("my shot.png".to_string()));
    assert_eq!(plain_relative_target("a.png?x#y"), Some("a.png".to_string()));
    assert_eq!(plain_relative_target("%2Fetc/passwd"), Some("/etc/passwd".to_string()));
    assert_eq!(plain_relative_target("?only-a-query"), None);
    assert_eq!(plain_relative_target(r"\x.png"), None);
}

#[test]
fn query_and_fragment_play_no_part() {
    assert_eq!(relative_image_path("x.png?v=2", "repo"), relative_image_path("x.png", "repo"));
    assert_eq!(relative_image_path("x.png#top", "repo"), relative_image_path("x.png", "repo"));
}

#[test]
fn an_escaped_root_does_not_resolve() {
    assert_eq!(relative_image_path("%2Fetc/passwd", "repo"), None);
}

#[test]
fn without_a_base_every_url_stays_a_uri() {
    for url in ["assets/hero.png", "%2Fetc", "", "a.png#x"] {
        match image_source(url, None) {
            ImageSource::Uri(uri) => assert_eq!(uri, url),
            other => panic!("expected Uri for {url:?}, got {other:?}"),
        }
    }
}

#[test]
fn letter_and_bullet_markers_take_the_largest_index() {
    let letter = (usize::MAX % 26) as u8;
    assert_eq!(list_item_prefix(usize::MAX, true, 1), format!("{}. ", (b'A' + letter) as char));
    assert_eq!(list_item_prefix(usize::MAX, true, 2), format!("{}. ", (b'a' + letter) as char));
    assert_eq!(list_item_prefix(usize::MAX, false, 0), "\u{2022} ");
}

#[test]
fn a_resolved_path_extends_the_base() {
    for base in ["repo", "repo/", "docs/site", "", "//srv/docs"] {
        let p = relative_image_path("img/a%20b.png?x", base).unwrap();
        assert_eq!(p, joined(base, "img/a b.png"));
        assert!(p.starts_with(base));
        assert!(p.ends_with("img/a b.png"));
        assert!(p.len() <= base.len() + "img/a b.png".len() + 1);
        assert_eq!(PathBuf::from(&p), Path::new(base).join("img/a b.png"));
    }
}

#[test]
fn the_base_only_places_the_path() {
    for url in ["a.png", "../b.png", "https://x/y.png", "%2Fetc", "c%20d.png#e"] {
        let one = relative_image_path(url, "one");
        let two = relative_image_path(url, "two/dirs");
        assert_eq!(one.is_some(), two.is_some());
    }
    assert_eq!(relative_image_path("c%20d.png#e", "two/dirs"), Some(joined("two/dirs", "c d.png")));
}

#[test]
fn an_image_read_from_disk_lies_under_the_base() {
    match image_source("pics/x.png#frag", Some("site")) {
        ImageSource::Path(p) => assert_eq!(p, joined("site", "pics/x.png")),
        other => panic!("expected a path, got {other:?}"),
    }
    assert!(matches!(image_source("%2Froot.png", Some("site")), ImageSource::Uri(_)));
}

#[test]
fn escaping_every_byte_round_trips() {
    let text = "h\u{e9}llo/%?#: ~";
    let escaped: String = text.bytes().map(|b| format!("%{b:02X}")).collect();
    assert_eq!(decode_percent_escapes(escaped.as_bytes()), text.as_bytes().to_vec());
    assert_eq!(percent_decoded(&escaped), Some(text.to_string()));
}

#[test]
fn only_the_text_before_the_first_colon_decides_the_scheme() {
    assert_eq!(has_scheme("ab:c d/%%"), has_scheme("ab:"));
    assert_eq!(has_scheme("a b:https://x"), has_scheme("a b:"));
    assert!(!has_scheme("a b:https://x"));
}

#[test]
fn path_components_find_the_root() {
    let kinds = path_components("/etc/passwd");
    assert!(matches!(kinds.first(), Some(ComponentKind::RootDir) | Some(ComponentKind::Prefix)));
    let kinds = path_components("./a/../b");
    assert!(matches!(
        kinds.as_slice(),
        [ComponentKind::CurDir, ComponentKind::Normal, ComponentKind::ParentDir, ComponentKind::Normal]
    ));
}
