use bkmrk_lib::bookmark::{format_with, Bookmark, TagList};
use bkmrk_lib::db::{difference, selection, tag_changes};
use bkmrk_lib::element::{classify, Attributes, Element, Tags};
use bkmrk_lib::error::ParseError;
use bkmrk_lib::hierarchy::MissingLink;
use bkmrk_lib::netscape_parser::{
    get_attributes, get_bookmarks, get_bookmarks_with, make_element, Markup,
};
use bkmrk_lib::site_metadata::{SiteMetadata, SiteType};

fn chars(s: &str) -> Vec<char> {
    s.chars().collect()
}

fn strings(items: &[&str]) -> Vec<String> {
    items.iter().map(|s| s.to_string()).collect()
}

fn sample() -> Bookmark {
    Bookmark {
        id: "a1b2c3".to_string(),
        link: "https://example.com".to_string(),
        added_at: 1600000000,
        last_modified: 1600000100,
        metadata: SiteMetadata {
            title: "Tab\\there".to_string(),
            description: Some("two\\nlines".to_string()),
            image_url: None,
            site_type: SiteType::Article,
        },
        tags: TagList(strings(&["x", "y"])),
    }
}

fn anchor(attributes: &[(&str, &str)], inner: &str, text: Option<&str>) -> Element {
    let mut a = Attributes::new();
    for (k, v) in attributes {
        a.insert(k.to_string(), v.to_string());
    }
    Element {
        name: Tags::A,
        attributes: if attributes.is_empty() { None } else { Some(a) },
        inner_text: Some(inner.to_string()),
        children: None,
        text: text.map(|t| t.to_string()),
    }
}

fn heading(kind: Tags, inner: &str) -> Element {
    Element {
        name: kind,
        attributes: None,
        inner_text: Some(inner.to_string()),
        children: None,
        text: None,
    }
}

fn folder(children: Vec<Element>) -> Element {
    Element { name: Tags::DL, attributes: None, inner_text: None, children: Some(children), text: None }
}

#[test]
fn tag_names_are_matched_letter_for_letter() {
    assert_eq!(Tags::from("DOCTYPE"), Tags::DOCTYPE);
    assert_eq!(Tags::from("META"), Tags::META);
    assert_eq!(Tags::from("TITLE"), Tags::TITLE);
    assert_eq!(Tags::from("H1"), Tags::H1);
    assert_eq!(Tags::from("H3"), Tags::H3);
    assert_eq!(Tags::from("DL"), Tags::DL);
    assert_eq!(Tags::from("DT"), Tags::DT);
    assert_eq!(Tags::from("DD"), Tags::DD);
    assert_eq!(Tags::from("A"), Tags::A);
    assert_eq!(Tags::from("p"), Tags::P);
    assert_eq!(Tags::from("  DL \n"), Tags::DL);
    assert_eq!(Tags::from("dl"), Tags::NONE);
    assert_eq!(Tags::from("P"), Tags::NONE);
    assert_eq!(Tags::from("H2"), Tags::NONE);
    assert_eq!(Tags::from(""), Tags::NONE);
    assert_eq!(Tags::default(), Tags::NONE);
    let v = chars("<DL>");
    assert_eq!(classify(&v, 1, 3), Tags::DL);
    assert_eq!(classify(&v, 1, 2), Tags::NONE);
}

#[test]
fn attributes_are_a_map() {
    let mut a = Attributes::new();
    assert!(a.is_empty());
    assert_eq!(a.get("K"), None);
    a.insert("K".to_string(), "1".to_string());
    a.insert("L".to_string(), "2".to_string());
    a.insert("K".to_string(), "3".to_string());
    assert!(!a.is_empty());
    assert_eq!(a.get("K"), Some(&"3".to_string()));
    assert_eq!(a.get("L"), Some(&"2".to_string()));
    assert_eq!(a.get("k"), None);
}

#[test]
fn a_default_element_is_of_no_kind() {
    let e = Element::default();
    assert_eq!(e.name, Tags::NONE);
    assert!(e.attributes.is_none() && e.inner_text.is_none());
    assert!(e.children.is_none() && e.text.is_none());
}

#[test]
fn attributes_are_read_up_to_the_end_of_the_tag() {
    let v = chars("<A HREF=\"h\" x = \"1 2\">t");
    let (attributes, end) = get_attributes(&v, 2).unwrap();
    assert_eq!(end, 22);
    let attributes = attributes.unwrap();
    assert_eq!(attributes.get("HREF"), Some(&"h".to_string()));
    assert_eq!(attributes.get("X"), Some(&"1 2".to_string()));
    let v = chars("<DT  >");
    let (attributes, end) = get_attributes(&v, 3).unwrap();
    assert!(attributes.is_none());
    assert_eq!(end, 6);
    assert_eq!(get_attributes(&chars("<A K=\"v\""), 2).unwrap_err(), 8);
    assert_eq!(get_attributes(&chars("<A K"), 2).unwrap_err(), 4);
}

#[test]
fn one_item_is_read_at_a_time() {
    let v = chars("<DL x=\"1\">  <A HREF=\"h\">t</A> d <!-- c --></DL> after");
    match make_element(&v, 0).unwrap() {
        (Markup::Open(Some(a)), 12) => assert_eq!(a.get("X"), Some(&"1".to_string())),
        other => panic!("{:?}", other),
    }
    match make_element(&v, 12).unwrap() {
        (Markup::Leaf(e), 32) => {
            assert_eq!(e.name, Tags::A);
            assert_eq!(e.inner_text, Some("t".to_string()));
            assert_eq!(e.text, Some("d".to_string()));
        }
        other => panic!("{:?}", other),
    }
    assert!(matches!(make_element(&v, 32).unwrap(), (Markup::Skip, 42)));
    match make_element(&v, 42).unwrap() {
        (Markup::Close(Some(t)), 53) => assert_eq!(t, "after"),
        other => panic!("{:?}", other),
    }
    assert_eq!(make_element(&chars("</A>"), 0).unwrap_err(), 0);
    assert_eq!(make_element(&chars("<A>x</A"), 0).unwrap_err(), 4);
}

#[test]
fn the_walk_takes_the_names_it_is_given() {
    let elements = vec![
        heading(Tags::H3, " In  side "),
        anchor(&[("HREF", " l ")], "t", Some("d")),
    ];
    let given = strings(&["Outer"]);
    let bookmarks = get_bookmarks(&elements, Some(&given), true, 3).unwrap();
    assert_eq!(bookmarks.len(), 1);
    assert_eq!(bookmarks[0].tags.0, strings(&["Outer", "In side"]));
    assert_eq!(bookmarks[0].link, "l");
    assert_eq!(bookmarks[0].metadata.description, Some("d".to_string()));
    assert_eq!(bookmarks[0].metadata.site_type, SiteType::Website);
    assert_eq!((bookmarks[0].added_at, bookmarks[0].last_modified), (3, 3));
    let bookmarks = get_bookmarks(&elements, Some(&given), false, 3).unwrap();
    assert!(bookmarks[0].tags.0.is_empty());
    let bookmarks = get_bookmarks(&elements, None, true, 3).unwrap();
    assert_eq!(bookmarks[0].tags.0, strings(&["In side"]));
}

#[test]
fn the_walk_goes_into_folder_lists() {
    let elements = vec![
        folder(vec![
            heading(Tags::H3, "Work"),
            folder(vec![heading(Tags::H3, "Urgent"), anchor(&[("HREF", "1"), ("TAGS", "x,y")], "a", None)]),
            anchor(&[("TAGS", "y,x"), ("HREF", "2")], "b", None),
        ]),
        Element { name: Tags::DL, attributes: None, inner_text: None, children: None, text: None },
        Element { name: Tags::DD, attributes: None, inner_text: None, children: None, text: Some("ignored".to_string()) },
        anchor(&[("HREF", "3")], "c", None),
    ];
    let bookmarks = get_bookmarks(&elements, None, true, 0).unwrap();
    let links: Vec<&str> = bookmarks.iter().map(|b| b.link.as_str()).collect();
    assert_eq!(links, vec!["1", "2", "3"]);
    assert_eq!(bookmarks[0].tags.0, strings(&["x", "y", "Work", "Urgent"]));
    assert_eq!(bookmarks[1].tags.0, strings(&["y", "x", "Work"]));
    assert!(bookmarks[2].tags.0.is_empty());
    assert_eq!(bookmarks[2].metadata.description, Some(String::new()));
}

#[test]
fn the_walk_fails_on_an_anchor_without_link() {
    let elements = vec![
        anchor(&[("HREF", "1")], "a", None),
        folder(vec![anchor(&[("TAGS", "x")], "b", None)]),
    ];
    assert_eq!(
        get_bookmarks(&elements, None, true, 0).unwrap_err(),
        ParseError::MissingRequiredAttribute
    );
    let bookmarks = get_bookmarks_with(&elements, None, true, MissingLink::Skip, 0).unwrap();
    assert_eq!(bookmarks.len(), 1);
    assert_eq!(bookmarks[0].link, "1");
    assert_eq!(
        get_bookmarks_with(&elements, None, true, MissingLink::Abort, 0).unwrap_err(),
        ParseError::MissingRequiredAttribute
    );
    let elements = vec![anchor(&[], "a", None)];
    assert_eq!(
        get_bookmarks(&elements, None, false, 0).unwrap_err(),
        ParseError::MissingRequiredAttribute
    );
}

#[test]
fn a_bookmark_on_one_line() {
    let b = sample();
    assert_eq!(b.to_string(), "Tab\\there - https://example.com [x, y]");
    assert_eq!(b.tags.to_string(), "x, y");
    assert_eq!(TagList::default().to_string(), "");
    assert_eq!(TagList::from(strings(&["q"])).0, strings(&["q"]));
}

#[test]
fn a_default_bookmark_is_empty() {
    let b = Bookmark::default();
    assert_eq!((b.id.as_str(), b.link.as_str(), b.added_at, b.last_modified), ("", "", 0, 0));
    assert_eq!(b.metadata.title, "");
    assert_eq!(b.metadata.description, None);
    assert_eq!(b.metadata.image_url, None);
    assert_eq!(b.metadata.site_type, SiteType::Website);
    assert!(b.tags.0.is_empty());
    assert_eq!(SiteType::default(), SiteType::Website);
}

#[test]
fn a_format_string_is_filled_in() {
    let b = sample();
    assert_eq!(b.format("%n - %l [%t]"), "Tab\there - https://example.com [x, y]");
    assert_eq!(
        b.format("%a|%m|%d|%%"),
        "2020-09-13 12:26:40|2020-09-13 12:28:20|two\nlines|%%"
    );
    assert_eq!(b.try_format("%n"), Some("Tab\there".to_string()));
    assert_eq!(b.format(""), "");
}

#[test]
fn a_text_that_cannot_be_unescaped_has_no_line() {
    let mut b = sample();
    b.metadata.title = "bad \\q escape".to_string();
    assert_eq!(b.try_format("%l"), None);
    let mut b = sample();
    b.link = "trailing\\".to_string();
    assert_eq!(b.try_format("%n"), None);
    let mut b = sample();
    b.added_at = i64::MAX;
    assert_eq!(b.try_format("%n"), None);
    let mut b = sample();
    b.last_modified = i64::MIN;
    assert_eq!(b.try_format("%n"), None);
    let mut b = sample();
    b.tags = TagList(strings(&["a\\"]));
    assert_eq!(b.try_format("%n"), None);
    let mut b = sample();
    b.metadata.description = Some("\\u12".to_string());
    assert_eq!(b.try_format("%n"), None);
    b.metadata.description = None;
    assert_eq!(b.try_format("[%d]"), Some("[]".to_string()));
}

#[test]
fn marks_are_replaced_in_order() {
    assert_eq!(format_with("%n%l%a%m%t%d", "1", "2", "3", "4", "5", "6"), "123456");
    assert_eq!(format_with("%n", "%l", "%a", "%m", "%t", "%d", "end"), "end");
    assert_eq!(format_with("%d %n", "n", "l", "a", "m", "t", "%n"), "%n n");
    assert_eq!(format_with("plain", "n", "l", "a", "m", "t", "d"), "plain");
}

#[test]
fn the_fields_of_a_table() {
    let mut b = sample();
    assert_eq!(b.fields(), strings(&["Tab\there", "https://example.com", "two\nlines", "x, y"]));
    b.metadata.title = "bad \\q".to_string();
    b.metadata.description = None;
    assert_eq!(b.fields(), strings(&["bad \\q", "https://example.com", "", "x, y"]));
    assert_eq!(Bookmark::headers(), strings(&["Title", "Link", "Description", "Tags"]));
}

#[test]
fn a_stamped_bookmark_has_both_times() {
    let b = sample().stamped(77);
    assert_eq!((b.added_at, b.last_modified), (77, 77));
    assert_eq!(b.link, "https://example.com");
    assert_eq!(b.id, "a1b2c3");
    assert_eq!(b.tags.0, strings(&["x", "y"]));
    assert_eq!(b.metadata.title, "Tab\\there");
}

#[test]
fn site_types_have_names() {
    let all = [
        (SiteType::MusicSong, "music.song"),
        (SiteType::MusicAlbum, "music.album"),
        (SiteType::MusicPlaylist, "music.playlist"),
        (SiteType::MusicRadioStation, "music.radio_station"),
        (SiteType::VideoMovie, "video.movie"),
        (SiteType::VideoEpisode, "video.episode"),
        (SiteType::VideoTvShow, "video.tv_show"),
        (SiteType::VideoOther, "video.other"),
        (SiteType::Article, "article"),
        (SiteType::Book, "book"),
        (SiteType::Profile, "profile"),
        (SiteType::Website, "website"),
    ];
    for (kind, name) in all {
        assert_eq!(SiteType::from(name), kind);
        assert_eq!(kind.to_string(), name);
        assert_eq!(kind.as_str(), name);
    }
    assert_eq!(SiteType::from("Article"), SiteType::Website);
    assert_eq!(SiteType::from(""), SiteType::Website);
    assert_eq!(SiteType::from("video"), SiteType::Website);
}

#[test]
fn what_is_kept_of_a_page() {
    let m = SiteMetadata::from_page(
        Some("T".to_string()),
        Some("D".to_string()),
        "video.movie",
        strings(&["first.png", "second.png"]),
    );
    assert_eq!(m.title, "T");
    assert_eq!(m.description, Some("D".to_string()));
    assert_eq!(m.image_url, Some("first.png".to_string()));
    assert_eq!(m.site_type, SiteType::VideoMovie);
    let m = SiteMetadata::from_page(None, None, "", Vec::new());
    assert_eq!(m.title, "");
    assert_eq!(m.description, None);
    assert_eq!(m.image_url, None);
    assert_eq!(m.site_type, SiteType::Website);
    let d = SiteMetadata::default();
    assert_eq!((d.title.as_str(), d.description, d.image_url, d.site_type), ("", None, None, SiteType::Website));
}

#[test]
fn a_selection_names_its_values() {
    let q = selection(&strings(&["a", "b"]), &strings(&["x.org"]));
    assert_eq!(
        q.statement,
        "SELECT b.id, b.link, b.added_at, b.last_modified, m.title, m.description, m.image_url, \
         m.site_type FROM `Bookmark` AS b, `Metadata` AS m WHERE b.id = m.bookmark_id AND b.id \
         in (SELECT DISTINCT bookmark_id FROM `Tag` WHERE tag in (?, ?)) AND (b.link LIKE ?)"
    );
    assert_eq!(q.parameters, strings(&["a", "b", "%x.org%"]));
    let q = selection(&[], &strings(&["x", "y'"]));
    assert!(q.statement.ends_with("m.bookmark_id AND (b.link LIKE ? OR b.link LIKE ?)"));
    assert_eq!(q.parameters, strings(&["%x%", "%y'%"]));
    let q = selection(&strings(&["t"]), &[]);
    assert!(q.statement.ends_with("WHERE tag in (?))"));
    assert_eq!(q.parameters, strings(&["t"]));
    let q = selection(&[], &[]);
    assert!(q.statement.ends_with("WHERE b.id = m.bookmark_id"));
    assert!(q.parameters.is_empty());
}

#[test]
fn a_selection_runs_on_a_store() {
    let conn = rusqlite::Connection::open_in_memory().unwrap();
    conn.execute_batch(
        "CREATE TABLE `Bookmark`(id CHAR(6) PRIMARY KEY, link VARCHAR(300), added_at DATETIME, last_modified DATETIME);
         CREATE TABLE `Tag`(bookmark_id NOT NULL, tag VARCHAR(100));
         CREATE TABLE `Metadata`(bookmark_id NOT NULL, title VARCHAR(300), description TEXT, image_url TEXT, site_type VARCHAR(20));
         INSERT INTO `Bookmark` VALUES ('1', 'http://a.org/x', 1, 1), ('2', 'http://b.org/y', 2, 2), ('3', 'http://a.org/z', 3, 3);
         INSERT INTO `Metadata` VALUES ('1', 'one', NULL, NULL, 'website'), ('2', 'two', NULL, NULL, 'website'), ('3', 'three', NULL, NULL, 'website');
         INSERT INTO `Tag` VALUES ('1', 'red'), ('2', 'red'), ('3', 'blue'), ('1', 'blue');",
    )
    .unwrap();
    let ids = |tags: &[&str], domains: &[&str]| -> Vec<String> {
        let q = selection(&strings(tags), &strings(domains));
        let mut statement = conn.prepare(&q.statement).unwrap();
        let rows = statement
            .query_map(rusqlite::params_from_iter(q.parameters.iter()), |row| row.get::<usize, String>(0))
            .unwrap();
        let mut ids: Vec<String> = rows.map(|r| r.unwrap()).collect();
        ids.sort();
        ids
    };
    assert_eq!(ids(&[], &[]), strings(&["1", "2", "3"]));
    assert_eq!(ids(&["red"], &[]), strings(&["1", "2"]));
    assert_eq!(ids(&["red", "blue"], &[]), strings(&["1", "2", "3"]));
    assert_eq!(ids(&[], &["a.org"]), strings(&["1", "3"]));
    assert_eq!(ids(&["red"], &["a.org"]), strings(&["1"]));
    assert_eq!(ids(&["red"], &["b.org", "/z"]), strings(&["2"]));
    assert_eq!(ids(&["x' OR '1'='1"], &[]), Vec::<String>::new());
}

#[test]
fn the_changes_between_two_lists_of_tags() {
    let old = strings(&["keep", "drop", "drop", "also"]);
    let new = strings(&["new", "keep", "new", "more"]);
    let (added, deleted) = tag_changes(&old, &new);
    assert_eq!(added, strings(&["new", "more"]));
    assert_eq!(deleted, strings(&["drop", "also"]));
    let (added, deleted) = tag_changes(&old, &old);
    assert!(added.is_empty() && deleted.is_empty());
    assert_eq!(difference(&strings(&["a", "", "a"]), &Vec::new()), strings(&["a", ""]));
}
