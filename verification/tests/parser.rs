use bkmrk_lib::bookmark::Bookmark;
use bkmrk_lib::element::Tags;
use bkmrk_lib::error::ParseError;
use bkmrk_lib::hierarchy::MissingLink;
use bkmrk_lib::netscape_parser::{get_elements, parse_str, parse_str_at, parse_str_with};

const EXAMPLE: &str = "<!DOCTYPE NETSCAPE-Bookmark-file-1>
<H1>Bookmarks</H1>
<DL><p>
  <DT><H3>Folder Name</H3>
  <DL><p>
    <DT><A HREF=\"https://example.com\" ADD_DATE=\"1600000000\" LAST_MODIFIED=\"1600000100\" TAGS=\"a,b\">Example</A>
    Optional description text
  </DL><p>
</DL><p>
";

fn titles(bookmarks: &[Bookmark]) -> Vec<String> {
    bookmarks.iter().map(|b| b.metadata.title.clone()).collect()
}

fn sorted_tags(b: &Bookmark) -> Vec<String> {
    let mut tags = b.tags.0.clone();
    tags.sort();
    tags
}

#[test]
fn example_file_yields_one_record() {
    let bookmarks = parse_str_at(EXAMPLE, true, 7).unwrap();
    assert_eq!(bookmarks.len(), 1);
    let b = &bookmarks[0];
    assert_eq!(b.id, "");
    assert_eq!(b.link, "https://example.com");
    assert_eq!(b.metadata.title, "Example");
    assert_eq!(b.metadata.description, Some("Optional description text".to_string()));
    assert_eq!(b.metadata.image_url, None);
    assert_eq!(b.added_at, 1600000000);
    assert_eq!(b.last_modified, 1600000100);
    assert_eq!(b.tags.0, vec!["a", "b", "Bookmarks", "Folder Name"]);
}

#[test]
fn example_file_without_folder_tags() {
    let bookmarks = parse_str_at(EXAMPLE, false, 7).unwrap();
    assert_eq!(bookmarks.len(), 1);
    assert_eq!(bookmarks[0].tags.0, vec!["a", "b"]);
}

#[test]
fn example_file_tree() {
    let elements = get_elements(EXAMPLE).unwrap();
    assert_eq!(elements.len(), 3);
    assert_eq!(elements[2].name, Tags::P);
    assert_eq!(elements[0].name, Tags::H1);
    assert_eq!(elements[0].inner_text, Some("Bookmarks".to_string()));
    assert_eq!(elements[1].name, Tags::DL);
    let outer = elements[1].children.as_ref().unwrap();
    let kinds: Vec<Tags> = outer.iter().map(|e| e.name).collect();
    assert_eq!(kinds, vec![Tags::P, Tags::DT, Tags::H3, Tags::DL, Tags::P]);
    let inner = outer[3].children.as_ref().unwrap();
    let kinds: Vec<Tags> = inner.iter().map(|e| e.name).collect();
    assert_eq!(kinds, vec![Tags::P, Tags::DT, Tags::A]);
    let a = &inner[2];
    assert!(a.children.is_none());
    assert_eq!(a.inner_text, Some("Example".to_string()));
    assert_eq!(a.text, Some("Optional description text".to_string()));
    let attrs = a.attributes.as_ref().unwrap();
    assert_eq!(attrs.get("HREF"), Some(&"https://example.com".to_string()));
    assert_eq!(attrs.get("TAGS"), Some(&"a,b".to_string()));
    assert_eq!(attrs.get("href"), None);
}

#[test]
fn records_come_in_document_order() {
    let text = "<DL><DT><A HREF=\"1\">one</A><DL><DT><A HREF=\"2\">two</A></DL>\
                <DT><A HREF=\"3\">three</A></DL><DT><A HREF=\"4\">four</A>";
    let bookmarks = parse_str_at(text, false, 0).unwrap();
    assert_eq!(titles(&bookmarks), vec!["one", "two", "three", "four"]);
    let links: Vec<&str> = bookmarks.iter().map(|b| b.link.as_str()).collect();
    assert_eq!(links, vec!["1", "2", "3", "4"]);
}

#[test]
fn parsing_twice_gives_the_same() {
    let a = parse_str_at(EXAMPLE, true, 42).unwrap();
    let b = parse_str_at(EXAMPLE, true, 42).unwrap();
    assert_eq!(format!("{:?}", a), format!("{:?}", b));
}

#[test]
fn nested_folder_names_join_the_tags() {
    let text = "<DL><H3>Work</H3><DL><H3>Urgent</H3><DL>\
                <DT><A HREF=\"http://a\" TAGS=\"x,y\">A</A></DL></DL></DL>";
    let bookmarks = parse_str_at(text, true, 0).unwrap();
    assert_eq!(bookmarks.len(), 1);
    assert_eq!(sorted_tags(&bookmarks[0]), vec!["Urgent", "Work", "x", "y"]);
    let swapped = "<DL><H3>Work</H3><DL><H3>Urgent</H3><DL>\
                   <DT><A TAGS=\"x,y\" HREF=\"http://a\">A</A></DL></DL></DL>";
    let again = parse_str_at(swapped, true, 0).unwrap();
    assert_eq!(again[0].tags.0, bookmarks[0].tags.0);
}

#[test]
fn a_tag_named_twice_is_kept_once() {
    let text = "<H3>x</H3><DL><DT><A HREF=\"h\" TAGS=\"x, y ,,x,y\">A</A></DL>";
    let bookmarks = parse_str_at(text, true, 0).unwrap();
    assert_eq!(bookmarks[0].tags.0, vec!["x", "y"]);
}

#[test]
fn folder_names_stay_in_their_folder() {
    let text = "<DL><DT><H3>First</H3><DL><DT><A HREF=\"1\">one</A></DL></DL>\
                <DL><DT><H3>Second</H3><DL><DT><A HREF=\"2\">two</A></DL></DL>\
                <DT><A HREF=\"3\">three</A>";
    let bookmarks = parse_str_at(text, true, 0).unwrap();
    assert_eq!(bookmarks.len(), 3);
    assert_eq!(bookmarks[0].tags.0, vec!["First"]);
    assert_eq!(bookmarks[1].tags.0, vec!["Second"]);
    assert!(bookmarks[2].tags.0.is_empty());
}

#[test]
fn a_heading_holds_for_the_rest_of_its_list() {
    let text = "<DL><DT><A HREF=\"0\">zero</A><H3>F</H3><DT><A HREF=\"1\">one</A>\
                <H3>G</H3><DL><DT><A HREF=\"2\">two</A></DL></DL>";
    let bookmarks = parse_str_at(text, true, 0).unwrap();
    assert!(bookmarks[0].tags.0.is_empty());
    assert_eq!(bookmarks[1].tags.0, vec!["F"]);
    assert_eq!(bookmarks[2].tags.0, vec!["F", "G"]);
}

#[test]
fn unclosed_items_make_separate_records() {
    let text = "<DT><A HREF=\"http://a\">A</A><DT><A HREF=\"http://b\">B</A>";
    let bookmarks = parse_str_at(text, false, 0).unwrap();
    assert_eq!(bookmarks.len(), 2);
    assert_eq!(bookmarks[0].link, "http://a");
    assert_eq!(bookmarks[0].metadata.title, "A");
    assert_eq!(bookmarks[1].link, "http://b");
    assert_eq!(bookmarks[1].metadata.title, "B");
    let elements = get_elements(text).unwrap();
    let kinds: Vec<Tags> = elements.iter().map(|e| e.name).collect();
    assert_eq!(kinds, vec![Tags::DT, Tags::A, Tags::DT, Tags::A]);
}

#[test]
fn an_anchor_without_href_fails_the_file() {
    let text = "<DL><DT><A HREF=\"ok\">fine</A><DT><A ADD_DATE=\"1\">no link</A></DL>";
    assert_eq!(parse_str_at(text, false, 0).unwrap_err(), ParseError::MissingRequiredAttribute);
    let bare = "<A>no attributes</A>";
    assert_eq!(parse_str_at(bare, false, 0).unwrap_err(), ParseError::MissingRequiredAttribute);
    assert_eq!(parse_str(bare, true).unwrap_err(), ParseError::MissingRequiredAttribute);
}

#[test]
fn a_title_is_squeezed() {
    let text = "<A HREF=\"h\">  My\n   Page </A>";
    let bookmarks = parse_str_at(text, false, 0).unwrap();
    assert_eq!(bookmarks[0].metadata.title, "My Page");
}

#[test]
fn the_link_is_trimmed() {
    let text = "<A HREF=\"  http://a/b c \n\">t</A>";
    let bookmarks = parse_str_at(text, false, 0).unwrap();
    assert_eq!(bookmarks[0].link, "http://a/b c");
}

#[test]
fn a_missing_description_is_empty() {
    let text = "<A HREF=\"h\">t</A>   \n <DT>";
    let bookmarks = parse_str_at(text, false, 0).unwrap();
    assert_eq!(bookmarks[0].metadata.description, Some(String::new()));
}

#[test]
fn missing_time_stamps_are_the_given_time() {
    let text = "<A HREF=\"h\">t</A><A HREF=\"i\" ADD_DATE=\"12\">u</A>\
                <A HREF=\"j\" LAST_MODIFIED=\"-5\">v</A>";
    let bookmarks = parse_str_at(text, false, 99).unwrap();
    assert_eq!((bookmarks[0].added_at, bookmarks[0].last_modified), (99, 99));
    assert_eq!((bookmarks[1].added_at, bookmarks[1].last_modified), (12, 99));
    assert_eq!((bookmarks[2].added_at, bookmarks[2].last_modified), (99, -5));
}

#[test]
fn a_time_stamp_that_is_no_integer_counts_as_missing() {
    let text = "<A HREF=\"h\" ADD_DATE=\"soon\" LAST_MODIFIED=\"99999999999999999999\">t</A>\
                <A HREF=\"h\" ADD_DATE=\" 1\" LAST_MODIFIED=\"\">t</A>";
    let bookmarks = parse_str_at(text, false, 5).unwrap();
    assert_eq!((bookmarks[0].added_at, bookmarks[0].last_modified), (5, 5));
    assert_eq!((bookmarks[1].added_at, bookmarks[1].last_modified), (5, 5));
}

#[test]
fn the_clock_gives_the_missing_time_stamps() {
    let before = chrono::Utc::now().timestamp();
    let bookmarks = parse_str("<A HREF=\"h\">t</A>", false).unwrap();
    let after = chrono::Utc::now().timestamp();
    let b = &bookmarks[0];
    assert_eq!(b.added_at, b.last_modified);
    assert!(before <= b.added_at && b.added_at <= after);
    assert!(b.added_at > 1_600_000_000);
}

#[test]
fn attribute_keys_are_held_in_upper_case() {
    let text = "<A href=\"h\" Add_Date = \"3\"  tags=\"q\">t</A>";
    let bookmarks = parse_str_at(text, false, 0).unwrap();
    assert_eq!(bookmarks[0].link, "h");
    assert_eq!(bookmarks[0].added_at, 3);
    assert_eq!(bookmarks[0].tags.0, vec!["q"]);
}

#[test]
fn the_later_of_two_values_stays() {
    let text = "<A HREF=\"first\" href=\"second\">t</A>";
    let bookmarks = parse_str_at(text, false, 0).unwrap();
    assert_eq!(bookmarks[0].link, "second");
}

#[test]
fn values_are_kept_as_written() {
    let elements = get_elements("<META CONTENT=\"a &amp; <b>  \">").unwrap();
    assert_eq!(elements[0].name, Tags::META);
    let attrs = elements[0].attributes.as_ref().unwrap();
    assert_eq!(attrs.get("CONTENT"), Some(&"a &amp; <b>  ".to_string()));
    assert!(elements[0].inner_text.is_none());
}

#[test]
fn a_tag_without_attributes_has_none() {
    let elements = get_elements("<DT ><H3>x</H3>").unwrap();
    assert!(elements[0].attributes.is_none());
    assert!(elements[1].attributes.is_none());
}

#[test]
fn inner_text_is_kept_as_written() {
    let elements = get_elements("<TITLE>  a \n b </TITLE>").unwrap();
    assert_eq!(elements[0].name, Tags::TITLE);
    assert_eq!(elements[0].inner_text, Some("  a \n b ".to_string()));
    assert_eq!(elements[0].text, None);
}

#[test]
fn text_after_a_tag_belongs_to_it() {
    let elements = get_elements("lead <DT> one <DD>two\n<p></DL >").unwrap_err();
    assert_eq!(elements, ParseError::MalformedInput { position: 25, line: 1 });
    let elements = get_elements("lead <DT> one <DD>two\n<p><DL></DL > tail ").unwrap();
    assert_eq!(elements[0].text, Some("one".to_string()));
    assert_eq!(elements[1].text, Some("two".to_string()));
    assert_eq!(elements[2].text, None);
    assert_eq!(elements[3].name, Tags::DL);
    assert_eq!(elements[3].text, Some("tail".to_string()));
    assert_eq!(elements[3].children.as_ref().unwrap().len(), 0);
}

#[test]
fn an_unknown_tag_is_malformed() {
    assert_eq!(
        get_elements("<DL>\n<DT>\n  <B>bold</B></DL>").unwrap_err(),
        ParseError::MalformedInput { position: 12, line: 2 }
    );
    assert_eq!(
        get_elements("<dl></dl>").unwrap_err(),
        ParseError::MalformedInput { position: 0, line: 0 }
    );
    assert_eq!(
        get_elements("<P>").unwrap_err(),
        ParseError::MalformedInput { position: 0, line: 0 }
    );
    assert_eq!(
        parse_str_at("<A HREF=\"h\">t</A><>", true, 0).unwrap_err(),
        ParseError::MalformedInput { position: 17, line: 0 }
    );
}

#[test]
fn a_closing_tag_without_its_opening_is_malformed() {
    assert_eq!(
        get_elements("<DL></DL></DL>").unwrap_err(),
        ParseError::MalformedInput { position: 9, line: 0 }
    );
    assert_eq!(
        get_elements("<DT></DT>").unwrap_err(),
        ParseError::MalformedInput { position: 4, line: 0 }
    );
    assert_eq!(
        get_elements("<H3>x</H1>").unwrap_err(),
        ParseError::MalformedInput { position: 5, line: 0 }
    );
    assert_eq!(
        get_elements("<H3>x<DT></H3>").unwrap_err(),
        ParseError::MalformedInput { position: 5, line: 0 }
    );
}

#[test]
fn an_open_list_at_the_end_is_malformed() {
    assert_eq!(
        get_elements("<DL><DT>").unwrap_err(),
        ParseError::MalformedInput { position: 8, line: 0 }
    );
    assert_eq!(
        get_elements("<A HREF=\"h\">never closed").unwrap_err(),
        ParseError::MalformedInput { position: 24, line: 0 }
    );
}

#[test]
fn an_attribute_without_a_value_is_malformed() {
    assert_eq!(
        get_elements("<A HREF>t</A>").unwrap_err(),
        ParseError::MalformedInput { position: 7, line: 0 }
    );
    assert_eq!(
        get_elements("<A HREF=>t</A>").unwrap_err(),
        ParseError::MalformedInput { position: 8, line: 0 }
    );
    assert_eq!(
        get_elements("<A HREF=h>t</A>").unwrap_err(),
        ParseError::MalformedInput { position: 8, line: 0 }
    );
    assert_eq!(
        get_elements("<A HREF=\"h>t</A>").unwrap_err(),
        ParseError::MalformedInput { position: 8, line: 0 }
    );
    assert_eq!(
        get_elements("<A =\"h\">t</A>").unwrap_err(),
        ParseError::MalformedInput { position: 3, line: 0 }
    );
    assert_eq!(
        get_elements("<DT").unwrap_err(),
        ParseError::MalformedInput { position: 3, line: 0 }
    );
}

#[test]
fn declarations_are_passed_over() {
    let text = "<!DOCTYPE NETSCAPE-Bookmark-file-1>\n<!-- generated -->\n<DL><!x></DL>";
    let elements = get_elements(text).unwrap();
    assert_eq!(elements.len(), 1);
    assert_eq!(elements[0].name, Tags::DL);
    assert_eq!(
        get_elements("<DT><!DOCTYPE").unwrap_err(),
        ParseError::MalformedInput { position: 4, line: 0 }
    );
}

#[test]
fn empty_text_has_no_bookmarks() {
    assert!(parse_str_at("", true, 0).unwrap().is_empty());
    assert!(parse_str_at("  no tags at all \n", true, 0).unwrap().is_empty());
    assert!(get_elements("").unwrap().is_empty());
}

#[test]
fn positions_count_characters() {
    assert_eq!(
        get_elements("<H1>\u{e9}t\u{e9}\n\u{2028}</H1>\n<X>").unwrap_err(),
        ParseError::MalformedInput { position: 15, line: 2 }
    );
}

#[test]
fn an_anchor_without_href_can_be_passed_over() {
    let text = "<DL><H3>F</H3><DT><A ADD_DATE=\"1\">no link</A><DL><A>none</A>\
                <DT><A HREF=\"in\">inner</A></DL><DT><A HREF=\"ok\">fine</A></DL>";
    let bookmarks = parse_str_with(text, true, MissingLink::Skip, 0).unwrap();
    assert_eq!(titles(&bookmarks), vec!["inner", "fine"]);
    assert_eq!(bookmarks[0].tags.0, vec!["F"]);
    assert_eq!(
        parse_str_with(text, true, MissingLink::Abort, 0).unwrap_err(),
        ParseError::MissingRequiredAttribute
    );
    let bare = "<A>no attributes</A>";
    assert!(parse_str_with(bare, false, MissingLink::Skip, 0).unwrap().is_empty());
}

#[test]
fn with_every_link_in_place_the_choice_changes_nothing() {
    let strict = parse_str_with(EXAMPLE, true, MissingLink::Abort, 9).unwrap();
    let lenient = parse_str_with(EXAMPLE, true, MissingLink::Skip, 9).unwrap();
    assert_eq!(format!("{:?}", strict), format!("{:?}", lenient));
    assert_eq!(format!("{:?}", strict), format!("{:?}", parse_str_at(EXAMPLE, true, 9).unwrap()));
}

#[test]
fn malformed_text_fails_whatever_the_choice() {
    assert_eq!(
        parse_str_with("<A>x</A><Q>", false, MissingLink::Skip, 0).unwrap_err(),
        ParseError::MalformedInput { position: 8, line: 0 }
    );
}
