use goodreads_sh::models::{
    book_from_xml_node, extract_book_id_from_book_link, parse_book_search_results, parse_shelf,
    parse_shelf_checked,
    parse_shelves, parse_xml, try_book_from_xml_node, try_extract_book_id, unreadable_book_link, Book,
};

const SHELF_XML: &str = r#"<?xml version="1.0" encoding="UTF-8"?>
<GoodreadsResponse>
  <reviews start="1" end="2" total="2">
    <review>
      <id>1</id>
      <book>
        <id type="integer">99999</id>
        <title>The First Book</title>
        <link>https://www.goodreads.com/book/show/1234.The_First_Book</link>
        <num_pages>320</num_pages>
        <description>A long description of the first book.</description>
        <authors><author><name>Someone</name><link>https://www.goodreads.com/author/show/1.Someone</link></author></authors>
      </book>
    </review>
    <review>
      <book>
        <title>The Second Book</title>
        <link>https://www.goodreads.com/book/show/4444-The-Second-Book</link>
        <num_pages/>
        <description>Another description, also long enough.</description>
      </book>
    </review>
  </reviews>
</GoodreadsResponse>
"#;

#[test]
fn test_extract_book_id_from_book_link() {
    let cases = vec![
        ("https://www.goodreads.com/book/show/1234.The_First_Book", 1234 as u32),
        ("https://www.goodreads.com/book/show/4444-The-Second-Book", 4444 as u32),
        ("https://www.goodreads.com/book/show/934343-The_Book", 934343 as u32),
    ];

    for (url, book_id) in cases.iter() {
        let actual = extract_book_id_from_book_link(url);
        assert_eq!(actual, Some(*book_id));
    }
}

#[test]
fn extract_book_id_of_links_that_do_not_match() {
    assert_eq!(extract_book_id_from_book_link("https://www.goodreads.com/author/show/12.Someone"), None);
    assert_eq!(extract_book_id_from_book_link("https://www.goodreads.com/book/show/12"), None);
    assert_eq!(extract_book_id_from_book_link("https://www.goodreads.com/book/show/12.Title-"), None);
    assert_eq!(extract_book_id_from_book_link("https://www.goodreads.com/book/show/12.Title--Two"), None);
    assert_eq!(extract_book_id_from_book_link("xhttps://www.goodreads.com/book/show/12.Title"), None);
}

#[test]
fn extract_book_id_of_an_id_too_large_fails() {
    assert_eq!(try_extract_book_id("https://www.goodreads.com/book/show/99999999999.Big"), None);
    assert_eq!(try_extract_book_id("https://www.goodreads.com/book/show/12.Small"), Some(Some(12)));
    assert_eq!(try_extract_book_id("https://www.goodreads.com/book/show/x12.Small"), Some(None));
}

#[test]
fn parse_shelf_reads_every_book() {
    let shelf = match parse_shelf(SHELF_XML) {
        Ok(shelf) => shelf,
        Err(_) => panic!("the shelf should parse"),
    };
    assert_eq!(shelf.books.len(), 2);
    let first = &shelf.books[0];
    assert_eq!(first.id, 1234);
    assert_eq!(first.title, "The First Book");
    assert_eq!(first.num_pages, Some(320));
    assert_eq!(first.description, "A long description of the first book.");
    let second = &shelf.books[1];
    assert_eq!(second.id, 4444);
    assert_eq!(second.title, "The Second Book");
    assert_eq!(second.num_pages, None);
}

#[test]
fn parse_shelf_of_malformed_xml_is_an_error() {
    match parse_shelf("<a><b></a>") {
        Ok(_) => panic!("malformed XML must not parse"),
        Err(e) => {
            let parser_error = roxmltree::Document::parse("<a><b></a>").unwrap_err();
            assert_eq!(e.message, format!("{}", parser_error));
            assert_eq!(e.debug, format!("{:?}", parser_error));
        }
    }
}

#[test]
fn parse_shelf_without_books_is_empty() {
    match parse_shelf("<GoodreadsResponse><reviews/></GoodreadsResponse>") {
        Ok(shelf) => assert_eq!(shelf.books.len(), 0),
        Err(_) => panic!("well-formed XML must parse"),
    }
}

#[test]
fn parse_shelf_checked_refuses_a_page_count_that_is_not_a_number() {
    let xml = "<r><book><title>T</title><num_pages>many</num_pages></book></r>";
    assert!(parse_shelf_checked(xml).is_none());
    let xml = "<r><book><title/></book></r>";
    assert!(parse_shelf_checked(xml).is_none());
    let xml = "<r><book><link>https://example.com/</link></book></r>";
    assert!(parse_shelf_checked(xml).is_none());
    let ok = "<r><book><title>T</title><num_pages>12</num_pages></book></r>";
    match parse_shelf_checked(ok) {
        Some(Ok(shelf)) => {
            assert_eq!(shelf.books.len(), 1);
            assert_eq!(shelf.books[0].num_pages, Some(12));
            assert_eq!(shelf.books[0].id, 0);
        }
        _ => panic!("the shelf should parse"),
    }
    assert!(matches!(parse_shelf_checked("<r>"), Some(Err(_))));
}

#[test]
fn a_link_outside_a_book_element_is_ignored() {
    let xml = "<r><book><author><link>not a book link</link></author><title>T</title></book></r>";
    match parse_shelf(xml) {
        Ok(shelf) => {
            assert_eq!(shelf.books.len(), 1);
            assert_eq!(shelf.books[0].id, 0);
            assert_eq!(shelf.books[0].title, "T");
        }
        Err(_) => panic!("the shelf should parse"),
    }
}

#[test]
fn later_fields_overwrite_earlier_ones() {
    let xml = "<book><title>First</title><work><title>Second</title></work></book>";
    let doc = match parse_xml(xml) {
        Ok(doc) => doc,
        Err(_) => panic!("well-formed XML"),
    };
    let index = doc.nodes.iter().position(|n| n.tag == "book").unwrap();
    let book = book_from_xml_node(&doc, index);
    assert_eq!(book.title, "Second");
}

#[test]
fn xml_nodes_follow_document_order() {
    let doc = match parse_xml("<a><b>text</b><c/></a>") {
        Ok(doc) => doc,
        Err(_) => panic!("well-formed XML"),
    };
    let tags: Vec<&str> = doc.nodes.iter().map(|n| n.tag.as_str()).collect();
    assert_eq!(tags, vec!["", "a", "b", "", "c"]);
    assert_eq!(doc.nodes[0].parent, None);
    assert_eq!(doc.nodes[2].parent, Some(1));
    assert_eq!(doc.nodes[2].text.as_deref(), Some("text"));
    assert_eq!(doc.nodes[1].descendants, 4);
    assert!(doc.nodes[3].text.is_some());
    assert!(!doc.nodes[3].is_element);
}

#[test]
fn book_to_string_shows_the_start_of_the_description() {
    let book = Book {
        id: 1,
        description: String::from("A long description of the first book."),
        title: String::from("Title"),
        num_pages: None,
    };
    assert_eq!(book.to_string(), "Title: A long description o...");
}

#[test]
fn parse_shelves_names_each_shelf() {
    let xml = "<GoodreadsResponse><shelves><user_shelf><id>1</id><name>read</name></user_shelf>\
               <user_shelf><name>to-read</name></user_shelf><user_shelf/></shelves></GoodreadsResponse>";
    match parse_shelves(xml) {
        Ok(shelves) => {
            let names: Vec<&str> = shelves.iter().map(|s| s.name.as_str()).collect();
            assert_eq!(names, vec!["read", "to-read", ""]);
        }
        Err(_) => panic!("the shelves should parse"),
    }
    assert!(parse_shelves("not xml").is_err());
}

#[test]
fn search_results_list_the_best_books() {
    let xml = "<GoodreadsResponse><search><results>\
        <work><id>1</id><best_book><id>42</id><title>Dune</title><author><id>7</id><name>Frank Herbert</name></author></best_book></work>\
        <work><best_book><id>x</id><title>Skipped</title></best_book></work>\
        <work><best_book><id>43</id></best_book></work>\
        </results></search></GoodreadsResponse>";
    let results = match parse_book_search_results(xml) {
        Ok(r) => r,
        Err(_) => panic!("the results should parse"),
    };
    assert_eq!(results.len(), 2);
    assert_eq!(results[0].id, 42);
    assert_eq!(results[0].title, "Dune");
    assert_eq!(results[0].author, "Frank Herbert");
    assert_eq!(results[1].id, 43);
    assert_eq!(results[1].title, "");
    assert!(parse_book_search_results("<x").is_err());
}

#[test]
fn try_book_from_xml_node_reads_only_readable_books() {
    let doc = match parse_xml("<r><book><title>T</title><num_pages>7</num_pages></book><book><title/></book></r>") {
        Ok(doc) => doc,
        Err(_) => panic!("well-formed XML"),
    };
    let books: Vec<usize> =
        doc.nodes.iter().enumerate().filter(|(_, n)| n.tag == "book").map(|(i, _)| i).collect();
    match try_book_from_xml_node(&doc, books[0]) {
        Some(b) => {
            assert_eq!(b.title, "T");
            assert_eq!(b.num_pages, Some(7));
        }
        None => panic!("the first book is readable"),
    }
    assert!(try_book_from_xml_node(&doc, books[1]).is_none());
}

#[test]
fn unreadable_book_link_names_the_first_bad_link() {
    let xml = "<r><book><link>https://example.com/a</link></book><book><link>https://example.com/b</link></book></r>";
    assert_eq!(unreadable_book_link(xml).as_deref(), Some("https://example.com/a"));
    assert_eq!(unreadable_book_link(SHELF_XML), None);
    assert_eq!(unreadable_book_link("<r>"), None);
    let xml = "<r><book><author><link>x</link></author></book></r>";
    assert_eq!(unreadable_book_link(xml), None);
}

#[test]
fn xml_nodes_nest_their_subtrees() {
    let doc = match parse_xml(SHELF_XML) {
        Ok(doc) => doc,
        Err(_) => panic!("well-formed XML"),
    };
    assert_eq!(doc.nodes[0].descendants, doc.nodes.len());
    for (i, n) in doc.nodes.iter().enumerate().skip(1) {
        let p = n.parent.unwrap();
        assert!(p < i);
        assert!(i < p + doc.nodes[p].descendants);
        assert!(n.descendants >= 1 && i + n.descendants <= doc.nodes.len());
    }
}
