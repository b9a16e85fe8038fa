//! Books and shelves read from the XML that the Goodreads API answers with.
use vstd::prelude::*;
use vstd::utf8::*;

use crate::text::{parse_u32, spec_parse_u32};

verus! {

// ---------------------------------------------------------------------------
// XML documents
// ---------------------------------------------------------------------------

/// One node of a parsed XML document: an element, a text node, a comment, a processing
/// instruction or the root.
pub struct XmlNode {
    /// The local name of an element; empty for every other node.
    pub tag: String,
    /// Whether the node is an element.
    pub is_element: bool,
    /// The text of a text node or comment, or of an element's first child when that
    /// child is a text node.
    pub text: Option<String>,
    /// The index of the parent node; `None` for the root.
    pub parent: Option<usize>,
    /// How many nodes the subtree of this node holds, the node itself included. They are
    /// the nodes from this one on, in document order.
    pub descendants: usize,
}

/// What a [`XmlNode`] holds, as mathematical values.
pub struct XmlNodeView {
    pub tag: Seq<char>,
    pub is_element: bool,
    pub text: Option<Seq<char>>,
    pub parent: Option<usize>,
    pub descendants: usize,
}

impl View for XmlNode {
    type V = XmlNodeView;

    open spec fn view(&self) -> XmlNodeView {
        XmlNodeView {
            tag: self.tag@,
            is_element: self.is_element,
            text: match self.text {
                Some(t) => Some(t@),
                None => None,
            },
            parent: self.parent,
            descendants: self.descendants,
        }
    }
}

/// A parsed XML document: all of its nodes in document order, the root first.
pub struct XmlDocument {
    pub nodes: Vec<XmlNode>,
}

impl View for XmlDocument {
    type V = Seq<XmlNodeView>;

    open spec fn view(&self) -> Seq<XmlNodeView> {
        self.nodes@.map_values(|n: XmlNode| n@)
    }
}

/// Why a text is not a well-formed XML document, as the XML parser words it.
pub struct XmlError {
    /// The parser's message for the error.
    pub message: String,
    /// The parser's debug form of the error.
    pub debug: String,
}

/// The nodes of the document that `roxmltree::Document::parse` reads from `text`, in
/// document order; `None` when it refuses the text.
pub uninterp spec fn xml_document_nodes(text: Seq<char>) -> Option<Seq<XmlNodeView>>;

/// The `Display` text of the error that `roxmltree::Document::parse` gives for `text`.
pub uninterp spec fn xml_error_message_text(text: Seq<char>) -> Seq<char>;

/// The `Debug` text of the error that `roxmltree::Document::parse` gives for `text`.
pub uninterp spec fn xml_error_debug_text(text: Seq<char>) -> Seq<char>;

/// `e` is the parser's error for `text`: its message and its debug form.
pub open spec fn xml_error_for(e: XmlError, text: Seq<char>) -> bool {
    &&& e.message@ == xml_error_message_text(text)
    &&& e.debug@ == xml_error_debug_text(text)
}

/// The nodes are those of a parsed document, in document order: the root comes first,
/// has no parent and its subtree holds every node; every other node has a parent that
/// comes before it and whose subtree holds it; and each subtree is the node itself and
/// some of the nodes right after it.
pub open spec fn xml_nodes_well_formed(nodes: Seq<XmlNodeView>) -> bool {
    &&& nodes.len() > 0
    &&& nodes[0].parent is None
    &&& nodes[0].descendants == nodes.len()
    &&& forall|i: int|
        0 <= i < nodes.len() ==> {
            &&& 1 <= (#[trigger] nodes[i]).descendants
            &&& i + nodes[i].descendants <= nodes.len()
            &&& i > 0 ==> (nodes[i].parent matches Some(p) && p < i && i < p
                + nodes[p as int].descendants)
        }
}

/// Calls `roxmltree::Document::parse(text)` and lists the document's nodes as
/// `Document::descendants` yields them (every node, in document order; a node's index in
/// that order is its `NodeId`), each with its local tag name, element kind, `text()`,
/// parent id and the length of its own `descendants()`; or, when the parser refuses the
/// text, its error's `Display` and `Debug` texts.
/// Claimed: the result depends on `text` alone, and `Ok` comes exactly when the parser
/// accepts the text. The nodes are well formed ([`xml_nodes_well_formed`]): the parser
/// pushes the root first and every other node after its parent, while that parent is
/// still open, and `descendants()` yields the node's own slice of the node list, from its
/// id up to its next subtree.
#[verifier::external_body]
fn parse_xml_document(text: &str) -> (r: Result<XmlDocument, XmlError>)
    ensures
        match r {
            Ok(doc) => xml_document_nodes(text@) == Some(doc@) && xml_nodes_well_formed(doc@),
            Err(e) => xml_document_nodes(text@) is None
                && e.message@ == xml_error_message_text(text@)
                && e.debug@ == xml_error_debug_text(text@),
        },
{
    match roxmltree::Document::parse(text) {
        Ok(doc) => Ok(XmlDocument {
            nodes: doc.descendants().map(|n| XmlNode {
                tag: n.tag_name().name().to_string(),
                is_element: n.is_element(),
                text: n.text().map(|t| t.to_string()),
                parent: n.parent().map(|p| p.id().get_usize()),
                descendants: n.descendants().len(),
            }).collect(),
        }),
        Err(e) => Err(XmlError { message: format!("{}", e), debug: format!("{:?}", e) }),
    }
}

/// Reads `text` as an XML document; the parser's error when it is not one.
pub fn parse_xml(text: &str) -> (r: Result<XmlDocument, XmlError>)
    ensures
        match r {
            Ok(doc) => xml_document_nodes(text@) == Some(doc@) && xml_nodes_well_formed(doc@),
            Err(e) => xml_document_nodes(text@) is None && xml_error_for(e, text@),
        },
{
    parse_xml_document(text)
}

/// The end of the subtree of node `i`: the index after its last descendant.
pub open spec fn subtree_end(nodes: Seq<XmlNodeView>, i: int) -> int {
    if i + nodes[i].descendants <= nodes.len() {
        i + nodes[i].descendants
    } else {
        nodes.len() as int
    }
}

/// The end of the subtree of node `i`.
fn subtree_end_exec(doc: &XmlDocument, i: usize) -> (end: usize)
    requires
        i < doc.nodes.len(),
    ensures
        end == subtree_end(doc@, i as int),
        i <= end <= doc.nodes.len(),
{
    let n = doc.nodes[i].descendants;
    if n <= doc.nodes.len() - i {
        i + n
    } else {
        doc.nodes.len()
    }
}

/// Whether node `node` has the local tag name `name`.
fn has_tag(node: &XmlNode, name: &str) -> (r: bool)
    ensures
        r == (node.tag@ == name@),
{
    node.tag == String::from_str(name)
}

/// The parent of node `j` is a `book` element (or any node with that local name).
pub open spec fn parent_is_book(nodes: Seq<XmlNodeView>, j: int) -> bool {
    match nodes[j].parent {
        Some(p) => p < nodes.len() && nodes[p as int].tag == "book"@,
        None => false,
    }
}

/// Whether the parent of node `j` has the local name `book`.
fn parent_is_book_exec(doc: &XmlDocument, j: usize) -> (r: bool)
    requires
        j < doc.nodes.len(),
    ensures
        r == parent_is_book(doc@, j as int),
{
    match doc.nodes[j].parent {
        Some(p) => {
            if p < doc.nodes.len() {
                has_tag(&doc.nodes[p], "book")
            } else {
                false
            }
        },
        None => false,
    }
}

// ---------------------------------------------------------------------------
// Book ids in book links
// ---------------------------------------------------------------------------

/// The pattern of a book's page URL; its `book_id` group is the id to use in API calls.
pub const BOOK_LINK_PATTERN: &'static str = r"(?x)
        ^https://www.goodreads.com/book/show/(?P<book_id>[\d]+)[\-|\.]
        ([[:word:]]+-)*
        ([[:word:]]+_)*
        [[:word:]]+$
        ";

/// The name of the group of [`BOOK_LINK_PATTERN`] that holds the id.
pub const BOOK_ID_GROUP: &'static str = "book_id";

/// What the `regex` crate makes of `pattern` and `text`: `None` when `pattern` does not
/// compile; otherwise the text of the group named `group` in the first match in `text`,
/// `None` inside when there is no match or the group took no part in it.
pub uninterp spec fn regex_named_capture(
    pattern: Seq<char>,
    group: Seq<char>,
    text: Seq<char>,
) -> Option<Option<Seq<char>>>;

/// An optional optional string as mathematical values.
pub open spec fn nested_option_view(o: Option<Option<String>>) -> Option<Option<Seq<char>>> {
    match o {
        Some(Some(s)) => Some(Some(s@)),
        Some(None) => Some(None),
        None => None,
    }
}

/// Calls `regex::Regex::new(pattern)` and then `captures(text)` and `name(group)` on the
/// result. Claimed: the result depends on the three texts alone; `None` exactly when the
/// pattern does not compile.
#[verifier::external_body]
fn capture_named_group(pattern: &str, group: &str, text: &str) -> (r: Option<Option<String>>)
    ensures
        nested_option_view(r) == regex_named_capture(pattern@, group@, text@),
{
    match regex::Regex::new(pattern) {
        Ok(re) => Some(
            match re.captures(text) {
                Some(cap) => match cap.name(group) {
                    Some(m) => Some(m.as_str().to_string()),
                    None => None,
                },
                None => None,
            },
        ),
        Err(_) => None,
    }
}

/// The digits that the book link pattern captures in `link`.
pub open spec fn book_link_capture(link: Seq<char>) -> Option<Option<Seq<char>>> {
    regex_named_capture(BOOK_LINK_PATTERN@, BOOK_ID_GROUP@, link)
}

/// Reading the book id of `link` goes without a panic: the pattern compiles, and the
/// digits it captures, if any, are a number that fits in a `u32`.
pub open spec fn book_link_ok(link: Seq<char>) -> bool {
    match book_link_capture(link) {
        Some(Some(digits)) => spec_parse_u32(digits) is Some,
        Some(None) => true,
        None => false,
    }
}

/// The book id in `link`: the number that the pattern's `book_id` group captures, or
/// `None` when the link does not match.
pub open spec fn spec_book_id(link: Seq<char>) -> Option<u32> {
    match book_link_capture(link) {
        Some(Some(digits)) => spec_parse_u32(digits),
        _ => None,
    }
}

/// The book id in `link` where [`extract_book_id_from_book_link`] can read it: `None` when
/// the link pattern does not compile or the captured digits do not fit in a `u32` (the
/// inputs that its `requires` leaves out); otherwise what it gives.
pub fn try_extract_book_id(link: &str) -> (r: Option<Option<u32>>)
    ensures
        r is Some <==> book_link_ok(link@),
        r matches Some(id) ==> id == spec_book_id(link@),
{
    match capture_named_group(BOOK_LINK_PATTERN, BOOK_ID_GROUP, link) {
        Some(Some(digits)) => {
            if parse_u32(digits.as_str()).is_none() {
                return None;
            }
        },
        Some(None) => {},
        None => {
            return None;
        },
    }
    Some(extract_book_id_from_book_link(link))
}

/// The id to use in API calls for the book whose page is `book_link`. The `id` in the
/// XML is not that id; the usable one is found only in the book's URL,
/// `https://www.goodreads.com/book/show/<id>` followed by `-` or `.` and the title.
pub fn extract_book_id_from_book_link(book_link: &str) -> (r: Option<u32>)
    requires
        book_link_ok(book_link@),
    ensures
        r == spec_book_id(book_link@),
{
    match capture_named_group(BOOK_LINK_PATTERN, BOOK_ID_GROUP, book_link) {
        Some(Some(digits)) => parse_u32(digits.as_str()),
        _ => None,
    }
}

// ---------------------------------------------------------------------------
// Books
// ---------------------------------------------------------------------------

/// A book on a shelf.
pub struct Book {
    /// The id to use in API calls.
    pub id: u32,
    pub description: String,
    pub title: String,
    /// The number of pages, which the XML sometimes leaves out.
    pub num_pages: Option<u32>,
}

/// What a [`Book`] holds, as mathematical values.
pub struct BookView {
    pub id: u32,
    pub description: Seq<char>,
    pub title: Seq<char>,
    pub num_pages: Option<u32>,
}

impl View for Book {
    type V = BookView;

    open spec fn view(&self) -> BookView {
        BookView {
            id: self.id,
            description: self.description@,
            title: self.title@,
            num_pages: self.num_pages,
        }
    }
}

/// The book before any field is read: id 0, empty texts, no page count.
pub open spec fn empty_book() -> BookView {
    BookView { id: 0, description: Seq::empty(), title: Seq::empty(), num_pages: None }
}

/// Node `j` can be read into a book without a panic: a `link` whose parent is a `book`
/// has a text that holds a book id, a `description` or `title` has a text, and the text
/// of a `num_pages`, when there is one, is a number.
pub open spec fn book_node_field_ok(nodes: Seq<XmlNodeView>, j: int) -> bool {
    let n = nodes[j];
    if n.tag == "link"@ {
        parent_is_book(nodes, j) ==> (n.text matches Some(t) && book_link_ok(t)
            && spec_book_id(t) is Some)
    } else if n.tag == "description"@ || n.tag == "title"@ {
        n.text is Some
    } else if n.tag == "num_pages"@ {
        n.text matches Some(t) ==> spec_parse_u32(t) is Some
    } else {
        true
    }
}

/// The book `b` after reading node `j`: a `link` under a `book` sets the id, a
/// `description`, `title` or `num_pages` sets that field; other nodes change nothing.
pub open spec fn read_book_field(b: BookView, nodes: Seq<XmlNodeView>, j: int) -> BookView {
    let n = nodes[j];
    if n.tag == "link"@ {
        if parent_is_book(nodes, j) {
            BookView { id: spec_book_id(n.text.unwrap()).unwrap(), ..b }
        } else {
            b
        }
    } else if n.tag == "description"@ {
        BookView { description: n.text.unwrap(), ..b }
    } else if n.tag == "title"@ {
        BookView { title: n.text.unwrap(), ..b }
    } else if n.tag == "num_pages"@ {
        BookView {
            num_pages: match n.text {
                Some(t) => Some(spec_parse_u32(t).unwrap()),
                None => None,
            },
            ..b
        }
    } else {
        b
    }
}

/// The book read from the nodes `i` up to `j`, in document order.
pub open spec fn book_read_upto(nodes: Seq<XmlNodeView>, i: int, j: int) -> BookView
    decreases j - i,
{
    if j <= i {
        empty_book()
    } else {
        read_book_field(book_read_upto(nodes, i, j - 1), nodes, j - 1)
    }
}

/// The book that the subtree of node `i` describes: its nodes read in document order, a
/// later field overwriting an earlier one.
pub open spec fn book_of_node(nodes: Seq<XmlNodeView>, i: int) -> BookView {
    book_read_upto(nodes, i, subtree_end(nodes, i))
}

/// Every node of the subtree of node `i` can be read without a panic.
pub open spec fn book_node_ok(nodes: Seq<XmlNodeView>, i: int) -> bool {
    forall|j: int| i <= j < subtree_end(nodes, i) ==> #[trigger] book_node_field_ok(nodes, j)
}

/// Reading nodes `i` up to `j` leaves the title and the description empty when no node
/// carries them, and otherwise sets each to the whole text of the last node that does.
proof fn lemma_text_fields_read_upto(nodes: Seq<XmlNodeView>, i: int, j: int)
    requires
        0 <= i <= j <= nodes.len(),
        forall|k: int| i <= k < j ==> #[trigger] book_node_field_ok(nodes, k),
    ensures
        (forall|k: int| i <= k < j ==> nodes[k].tag != "title"@) ==> book_read_upto(
            nodes,
            i,
            j,
        ).title == Seq::<char>::empty(),
        (exists|k: int| i <= k < j && nodes[k].tag == "title"@) ==> exists|k: int|
            i <= k < j && nodes[k].tag == "title"@ && nodes[k].text == Some(
                book_read_upto(nodes, i, j).title,
            ) && forall|m: int| k < m < j ==> nodes[m].tag != "title"@,
        (forall|k: int| i <= k < j ==> nodes[k].tag != "description"@) ==> book_read_upto(
            nodes,
            i,
            j,
        ).description == Seq::<char>::empty(),
        (exists|k: int| i <= k < j && nodes[k].tag == "description"@) ==> exists|k: int|
            i <= k < j && nodes[k].tag == "description"@ && nodes[k].text == Some(
                book_read_upto(nodes, i, j).description,
            ) && forall|m: int| k < m < j ==> nodes[m].tag != "description"@,
    decreases j - i,
{
    if j > i {
        lemma_text_fields_read_upto(nodes, i, j - 1);
        assert(book_node_field_ok(nodes, j - 1));
        let n = nodes[j - 1];
        reveal_strlit("title");
        reveal_strlit("description");
        reveal_strlit("link");
        reveal_strlit("num_pages");
        assert("title"@ != "description"@ && "title"@ != "link"@ && "title"@ != "num_pages"@) by {
            assert("title"@.len() != "description"@.len());
            assert("title"@.len() != "link"@.len());
            assert("title"@.len() != "num_pages"@.len());
        }
        assert("description"@ != "link"@ && "description"@ != "num_pages"@) by {
            assert("description"@.len() != "link"@.len());
            assert("description"@.len() != "num_pages"@.len());
        }
        if n.tag != "title"@ {
            if exists|k: int| i <= k < j && nodes[k].tag == "title"@ {
                let k = choose|k: int| i <= k < j && nodes[k].tag == "title"@;
                assert(i <= k < j - 1);
            }
        }
        if n.tag != "description"@ {
            if exists|k: int| i <= k < j && nodes[k].tag == "description"@ {
                let k = choose|k: int| i <= k < j && nodes[k].tag == "description"@;
                assert(i <= k < j - 1);
            }
        }
    }
}

/// A book's title is the whole text of the last `title` node of its subtree, whatever its
/// length, or empty when the subtree has none; its description likewise is the whole text
/// of the last `description` node.
pub proof fn law_book_text_fields_are_whole_texts(nodes: Seq<XmlNodeView>, i: int)
    requires
        0 <= i < nodes.len(),
        book_node_ok(nodes, i),
    ensures
        ({
            let end = subtree_end(nodes, i);
            let book = book_of_node(nodes, i);
            &&& (forall|k: int| i <= k < end ==> nodes[k].tag != "title"@) ==> book.title
                == Seq::<char>::empty()
            &&& (exists|k: int| i <= k < end && nodes[k].tag == "title"@) ==> exists|k: int|
                i <= k < end && nodes[k].tag == "title"@ && nodes[k].text == Some(book.title)
                    && forall|m: int| k < m < end ==> nodes[m].tag != "title"@
            &&& (forall|k: int| i <= k < end ==> nodes[k].tag != "description"@)
                ==> book.description == Seq::<char>::empty()
            &&& (exists|k: int| i <= k < end && nodes[k].tag == "description"@) ==> exists|k: int|
                i <= k < end && nodes[k].tag == "description"@ && nodes[k].text == Some(
                    book.description,
                ) && forall|m: int| k < m < end ==> nodes[m].tag != "description"@
        }),
{
    lemma_text_fields_read_upto(nodes, i, subtree_end(nodes, i));
}

/// The book that the subtree of node `i` of `doc` describes, read node by node, or `None`
/// at the first node that cannot be read (see [`book_node_ok`]).
fn read_book_from_xml_node(doc: &XmlDocument, i: usize) -> (r: Option<Book>)
    requires
        i < doc.nodes.len(),
    ensures
        r is Some <==> book_node_ok(doc@, i as int),
        r matches Some(b) ==> b@ == book_of_node(doc@, i as int),
{
    let end = subtree_end_exec(doc, i);
    let mut book = Book { id: 0, description: String::new(), title: String::new(), num_pages: None };
    let mut j: usize = i;
    while j < end
        invariant
            i <= j <= end <= doc.nodes.len(),
            end == subtree_end(doc@, i as int),
            book@ == book_read_upto(doc@, i as int, j as int),
            forall|k: int| i <= k < j ==> #[trigger] book_node_field_ok(doc@, k),
        decreases end - j,
    {
        let node = &doc.nodes[j];
        assert(doc@[j as int] == node@);
        if has_tag(node, "link") {
            if parent_is_book_exec(doc, j) {
                match &node.text {
                    Some(t) => match try_extract_book_id(t.as_str()) {
                        Some(Some(id)) => {
                            book.id = id;
                        },
                        _ => {
                            assert(!book_node_field_ok(doc@, j as int));
                            return None;
                        },
                    },
                    None => {
                        assert(!book_node_field_ok(doc@, j as int));
                        return None;
                    },
                }
            }
        } else if has_tag(node, "description") {
            match &node.text {
                Some(t) => {
                    book.description = t.clone();
                },
                None => {
                    assert(!book_node_field_ok(doc@, j as int));
                    return None;
                },
            }
        } else if has_tag(node, "title") {
            match &node.text {
                Some(t) => {
                    book.title = t.clone();
                },
                None => {
                    assert(!book_node_field_ok(doc@, j as int));
                    return None;
                },
            }
        } else if has_tag(node, "num_pages") {
            match &node.text {
                Some(t) => match parse_u32(t.as_str()) {
                    Some(n) => {
                        book.num_pages = Some(n);
                    },
                    None => {
                        assert(!book_node_field_ok(doc@, j as int));
                        return None;
                    },
                },
                None => {
                    book.num_pages = None;
                },
            }
        }
        assert(book_node_field_ok(doc@, j as int));
        j = j + 1;
        assert(book@ == book_read_upto(doc@, i as int, j as int));
    }
    Some(book)
}

/// The book that the subtree of node `i` of `doc` describes. Each node of the subtree, in
/// document order, sets a field: the text of a `link` whose parent is a `book` gives the
/// id (see [`extract_book_id_from_book_link`]), a `description`, `title` or `num_pages`
/// gives that field; fields that no node sets keep their defaults (id 0, empty texts, no
/// page count).
pub fn book_from_xml_node(doc: &XmlDocument, i: usize) -> (book: Book)
    requires
        i < doc.nodes.len(),
        book_node_ok(doc@, i as int),
    ensures
        book@ == book_of_node(doc@, i as int),
{
    match read_book_from_xml_node(doc, i) {
        Some(b) => b,
        None => Book { id: 0, description: String::new(), title: String::new(), num_pages: None },
    }
}

/// [`book_from_xml_node`] where it goes through: the book that the subtree of node `i`
/// of `doc` describes, or `None` when one of its nodes cannot be read (a book link
/// without a usable id, a title or description without text, a page count that is not a
/// number).
pub fn try_book_from_xml_node(doc: &XmlDocument, i: usize) -> (r: Option<Book>)
    requires
        i < doc.nodes.len(),
    ensures
        r is Some <==> book_node_ok(doc@, i as int),
        r matches Some(b) ==> b@ == book_of_node(doc@, i as int),
{
    if read_book_from_xml_node(doc, i).is_some() {
        Some(book_from_xml_node(doc, i))
    } else {
        None
    }
}

/// The longest part of a description that a book's one-line form shows, in bytes.
pub const MAX_DESC_LEN: usize = 20;

impl Book {
    /// The book on one line: the title, `": "`, the first [`MAX_DESC_LEN`] bytes of the
    /// description and `"..."`. The description must be at least that long and those
    /// bytes must end on a character boundary.
    pub fn to_string(&self) -> (s: String)
        requires
            is_char_boundary(encode_utf8(self.description@), MAX_DESC_LEN as int),
        ensures
            s@ == self.title@ + ": "@ + decode_utf8(
                encode_utf8(self.description@).subrange(0, MAX_DESC_LEN as int),
            ) + "..."@,
    {
        let (shortened_desc, _) = self.description.as_str().split_at(MAX_DESC_LEN);
        proof {
            encode_utf8_decode_utf8(shortened_desc@);
        }
        let mut s = self.title.clone();
        s.append(": ");
        s.append(shortened_desc);
        s.append("...");
        s
    }
}

// ---------------------------------------------------------------------------
// Shelves
// ---------------------------------------------------------------------------

/// The books on a shelf.
pub struct Shelf {
    pub books: Vec<Book>,
}

impl View for Shelf {
    type V = Seq<BookView>;

    open spec fn view(&self) -> Seq<BookView> {
        self.books@.map_values(|b: Book| b@)
    }
}

/// Node `n` is an element named `book`.
pub open spec fn is_book_element(n: XmlNodeView) -> bool {
    n.is_element && n.tag == "book"@
}

/// The books that the first `k` nodes start, in document order.
pub open spec fn shelf_books_upto(nodes: Seq<XmlNodeView>, k: int) -> Seq<BookView>
    decreases k,
{
    if k <= 0 {
        Seq::empty()
    } else {
        let before = shelf_books_upto(nodes, k - 1);
        if is_book_element(nodes[k - 1]) {
            before.push(book_of_node(nodes, k - 1))
        } else {
            before
        }
    }
}

/// The books of a shelf document: one for each `book` element, in document order, read
/// from that element's subtree (see [`book_of_node`]).
pub open spec fn shelf_books(nodes: Seq<XmlNodeView>) -> Seq<BookView> {
    shelf_books_upto(nodes, nodes.len() as int)
}

/// Every `book` element of the document can be read without a panic.
pub open spec fn shelf_ok(nodes: Seq<XmlNodeView>) -> bool {
    forall|i: int| 0 <= i < nodes.len() && is_book_element(#[trigger] nodes[i]) ==> book_node_ok(nodes, i)
}

/// The shelf that `doc` describes, or `None` when reading one of its books would fail.
fn try_shelf_from_document(doc: &XmlDocument) -> (r: Option<Shelf>)
    ensures
        r is Some <==> shelf_ok(doc@),
        r matches Some(shelf) ==> shelf@ == shelf_books(doc@),
{
    let mut books: Vec<Book> = Vec::new();
    let mut i: usize = 0;
    while i < doc.nodes.len()
        invariant
            i <= doc.nodes.len(),
            books@.map_values(|b: Book| b@) == shelf_books_upto(doc@, i as int),
            forall|k: int| 0 <= k < i && is_book_element(#[trigger] doc@[k]) ==> book_node_ok(doc@, k),
        decreases doc.nodes.len() - i,
    {
        let node = &doc.nodes[i];
        assert(doc@[i as int] == node@);
        if node.is_element && has_tag(node, "book") {
            match try_book_from_xml_node(doc, i) {
                Some(book) => {
                    let ghost before = books@.map_values(|b: Book| b@);
                    books.push(book);
                    assert(books@.map_values(|b: Book| b@) =~= before.push(book@));
                },
                None => {
                    return None;
                },
            }
        }
        i = i + 1;
    }
    Some(Shelf { books })
}

/// The books of the shelf whose XML is `shelf_xml`: one for each `book` element, in
/// document order (see [`book_from_xml_node`]). The error of the XML parser when the text
/// is not well-formed XML.
pub fn parse_shelf(shelf_xml: &str) -> (r: Result<Shelf, XmlError>)
    requires
        xml_document_nodes(shelf_xml@) matches Some(nodes) ==> shelf_ok(nodes),
    ensures
        match xml_document_nodes(shelf_xml@) {
            Some(nodes) => r matches Ok(shelf) && shelf@ == shelf_books(nodes),
            None => r matches Err(e) && xml_error_for(e, shelf_xml@),
        },
{
    let doc = match parse_xml(shelf_xml) {
        Ok(doc) => doc,
        Err(e) => return Err(e),
    };
    match try_shelf_from_document(&doc) {
        Some(shelf) => Ok(shelf),
        None => Ok(Shelf { books: Vec::new() }),
    }
}

/// Node `j` is a `link` whose parent is a `book` and whose text holds no book id that can
/// be read.
pub open spec fn bad_book_link(nodes: Seq<XmlNodeView>, j: int) -> bool {
    &&& nodes[j].tag == "link"@
    &&& parent_is_book(nodes, j)
    &&& nodes[j].text matches Some(t) && !(book_link_ok(t) && spec_book_id(t) is Some)
}

/// Node `j` is the first node that [`bad_book_link`] holds of.
pub open spec fn first_bad_book_link(nodes: Seq<XmlNodeView>, j: int) -> bool {
    &&& bad_book_link(nodes, j)
    &&& forall|k: int| 0 <= k < j ==> !#[trigger] bad_book_link(nodes, k)
}

/// The text of the first `link` of `shelf_xml`, in document order, whose parent is a
/// `book` and whose text holds no book id that can be read; `None` when there is none or
/// the text is not well-formed XML.
pub fn unreadable_book_link(shelf_xml: &str) -> (r: Option<String>)
    ensures
        match xml_document_nodes(shelf_xml@) {
            None => r is None,
            Some(nodes) => match r {
                Some(t) => exists|j: int|
                    0 <= j < nodes.len() && #[trigger] first_bad_book_link(nodes, j)
                        && nodes[j].text == Some(t@),
                None => forall|j: int| 0 <= j < nodes.len() ==> !#[trigger] bad_book_link(nodes, j),
            },
        },
{
    let doc = match parse_xml(shelf_xml) {
        Ok(doc) => doc,
        Err(_) => return None,
    };
    let mut j: usize = 0;
    while j < doc.nodes.len()
        invariant
            j <= doc.nodes.len(),
            xml_document_nodes(shelf_xml@) == Some(doc@),
            forall|k: int| 0 <= k < j ==> !#[trigger] bad_book_link(doc@, k),
        decreases doc.nodes.len() - j,
    {
        let node = &doc.nodes[j];
        assert(doc@[j as int] == node@);
        if has_tag(node, "link") && parent_is_book_exec(&doc, j) {
            match &node.text {
                Some(t) => match try_extract_book_id(t.as_str()) {
                    Some(Some(_)) => {},
                    _ => {
                        let link = String::from_str(t.as_str());
                        assert(bad_book_link(doc@, j as int));
                        assert(doc@[j as int].text == Some(link@));
                        assert(first_bad_book_link(doc@, j as int));
                        let r = Some(link);
                        assert(match xml_document_nodes(shelf_xml@) {
                            None => r is None,
                            Some(nodes) => match r {
                                Some(t) => exists|m: int|
                                    0 <= m < nodes.len() && #[trigger] first_bad_book_link(nodes, m)
                                        && nodes[m].text == Some(t@),
                                None => forall|m: int| 0 <= m < nodes.len() ==> !#[trigger] bad_book_link(nodes, m),
                            },
                        });
                        return r;
                    },
                },
                None => {},
            }
        }
        j = j + 1;
    }
    None
}

/// [`parse_shelf`] where it goes through: `None` when the XML is well formed but one of
/// its books cannot be read (a book link without a usable id, a title or description
/// without text, a page count that is not a number).
pub fn parse_shelf_checked(shelf_xml: &str) -> (r: Option<Result<Shelf, XmlError>>)
    ensures
        r is None <==> (xml_document_nodes(shelf_xml@) matches Some(nodes) && !shelf_ok(nodes)),
        r matches Some(res) ==> match xml_document_nodes(shelf_xml@) {
            Some(nodes) => res matches Ok(shelf) && shelf@ == shelf_books(nodes),
            None => res matches Err(e) && xml_error_for(e, shelf_xml@),
        },
{
    match parse_xml(shelf_xml) {
        Ok(doc) => {
            if try_shelf_from_document(&doc).is_none() {
                return None;
            }
            Some(parse_shelf(shelf_xml))
        },
        Err(_) => Some(parse_shelf(shelf_xml)),
    }
}

// ---------------------------------------------------------------------------
// The user's shelves
// ---------------------------------------------------------------------------

/// One of the user's shelves.
pub struct UserShelf {
    pub name: String,
}

/// Node `n` is an element named `user_shelf`.
pub open spec fn is_user_shelf_element(n: XmlNodeView) -> bool {
    n.is_element && n.tag == "user_shelf"@
}

/// The text of the last element named `tag` with a text among the nodes from `i` up to
/// `j`, only children of node `i` counting when `children_only` holds.
pub open spec fn last_text_upto(
    nodes: Seq<XmlNodeView>,
    i: int,
    j: int,
    tag: Seq<char>,
    children_only: bool,
) -> Option<Seq<char>>
    decreases j - i,
{
    if j <= i {
        None
    } else {
        let n = nodes[j - 1];
        if n.is_element && n.tag == tag && n.text is Some && (!children_only || n.parent == Some(
            i as usize,
        )) {
            n.text
        } else {
            last_text_upto(nodes, i, j - 1, tag, children_only)
        }
    }
}

/// The text of the last element named `tag` with a text in the subtree of node `i`.
pub open spec fn last_text(nodes: Seq<XmlNodeView>, i: int, tag: Seq<char>, children_only: bool) -> Option<
    Seq<char>,
> {
    last_text_upto(nodes, i, subtree_end(nodes, i), tag, children_only)
}

/// The text of the last element named `tag` with a text in the subtree of node `i`
/// (see [`last_text`]).
fn last_text_exec(doc: &XmlDocument, i: usize, tag: &str, children_only: bool) -> (r: Option<String>)
    requires
        i < doc.nodes.len(),
    ensures
        match r {
            Some(t) => last_text(doc@, i as int, tag@, children_only) == Some(t@),
            None => last_text(doc@, i as int, tag@, children_only) is None,
        },
{
    let end = subtree_end_exec(doc, i);
    let mut found: Option<String> = None;
    let mut j: usize = i;
    while j < end
        invariant
            i <= j <= end <= doc.nodes.len(),
            end == subtree_end(doc@, i as int),
            match found {
                Some(t) => last_text_upto(doc@, i as int, j as int, tag@, children_only) == Some(t@),
                None => last_text_upto(doc@, i as int, j as int, tag@, children_only) is None,
            },
        decreases end - j,
    {
        let node = &doc.nodes[j];
        assert(doc@[j as int] == node@);
        if node.is_element && has_tag(node, tag) && (!children_only || node.parent == Some(i)) {
            match &node.text {
                Some(t) => {
                    found = Some(t.clone());
                },
                None => {},
            }
        }
        j = j + 1;
    }
    found
}

/// The shelves of a shelves document: one for each `user_shelf` element, named by the
/// text of the last `name` element in its subtree, or the empty name.
pub open spec fn user_shelves_upto(nodes: Seq<XmlNodeView>, k: int) -> Seq<Seq<char>>
    decreases k,
{
    if k <= 0 {
        Seq::empty()
    } else {
        let before = user_shelves_upto(nodes, k - 1);
        if is_user_shelf_element(nodes[k - 1]) {
            before.push(
                match last_text(nodes, k - 1, "name"@, false) {
                    Some(t) => t,
                    None => Seq::empty(),
                },
            )
        } else {
            before
        }
    }
}

/// The names of the shelves in a list of shelves.
pub open spec fn shelf_names(shelves: Seq<UserShelf>) -> Seq<Seq<char>> {
    shelves.map_values(|s: UserShelf| s.name@)
}

/// The user's shelves in the XML `shelves_xml`: one for each `user_shelf` element, in
/// document order, named by the text of the last `name` element in its subtree (or the
/// empty name when there is none). The
/// error of the XML parser when the text is not well-formed XML.
pub fn parse_shelves(shelves_xml: &str) -> (r: Result<Vec<UserShelf>, XmlError>)
    ensures
        match xml_document_nodes(shelves_xml@) {
            Some(nodes) => r matches Ok(shelves) && shelf_names(shelves@) == user_shelves_upto(
                nodes,
                nodes.len() as int,
            ),
            None => r matches Err(e) && xml_error_for(e, shelves_xml@),
        },
{
    let doc = match parse_xml(shelves_xml) {
        Ok(doc) => doc,
        Err(e) => return Err(e),
    };
    let mut shelves: Vec<UserShelf> = Vec::new();
    let mut i: usize = 0;
    while i < doc.nodes.len()
        invariant
            i <= doc.nodes.len(),
            shelf_names(shelves@) == user_shelves_upto(doc@, i as int),
        decreases doc.nodes.len() - i,
    {
        let node = &doc.nodes[i];
        assert(doc@[i as int] == node@);
        if node.is_element && has_tag(node, "user_shelf") {
            let name = match last_text_exec(&doc, i, "name", false) {
                Some(t) => t,
                None => String::new(),
            };
            let ghost before = shelf_names(shelves@);
            shelves.push(UserShelf { name });
            assert(shelf_names(shelves@) =~= before.push(name@));
        }
        i = i + 1;
    }
    Ok(shelves)
}

// ---------------------------------------------------------------------------
// Book search results
// ---------------------------------------------------------------------------

/// A book found by a search: its id, title and author.
pub struct SearchResult {
    pub id: u32,
    pub title: String,
    pub author: String,
}

/// What a [`SearchResult`] holds, as mathematical values.
pub open spec fn search_result_view(r: SearchResult) -> (u32, Seq<char>, Seq<char>) {
    (r.id, r.title@, r.author@)
}

/// The text, or the empty text.
pub open spec fn text_or_empty(t: Option<Seq<char>>) -> Seq<char> {
    match t {
        Some(t) => t,
        None => Seq::empty(),
    }
}

/// The results of a search document: one for each `best_book` element whose `id` child
/// holds a number, with that number, the text of the last `title` and of the last author
/// `name` in its subtree (empty when missing), in document order.
pub open spec fn search_results_upto(nodes: Seq<XmlNodeView>, k: int) -> Seq<(u32, Seq<char>, Seq<char>)>
    decreases k,
{
    if k <= 0 {
        Seq::empty()
    } else {
        let before = search_results_upto(nodes, k - 1);
        let n = nodes[k - 1];
        if n.is_element && n.tag == "best_book"@ {
            match last_text(nodes, k - 1, "id"@, true) {
                Some(t) => match spec_parse_u32(t) {
                    Some(id) => before.push(
                        (
                            id,
                            text_or_empty(last_text(nodes, k - 1, "title"@, false)),
                            text_or_empty(last_text(nodes, k - 1, "name"@, false)),
                        ),
                    ),
                    None => before,
                },
                None => before,
            }
        } else {
            before
        }
    }
}

/// The text, or the empty string.
fn string_or_empty(t: Option<String>) -> (s: String)
    ensures
        s@ == text_or_empty(
            match t {
                Some(x) => Some(x@),
                None => None,
            },
        ),
{
    match t {
        Some(x) => x,
        None => String::new(),
    }
}

/// The books found by a search, from the XML `results_xml` (see
/// [`search_results_upto`]). The error of the XML parser when the text is not
/// well-formed XML.
pub fn parse_book_search_results(results_xml: &str) -> (r: Result<Vec<SearchResult>, XmlError>)
    ensures
        match xml_document_nodes(results_xml@) {
            Some(nodes) => r matches Ok(results) && results@.map_values(
                |x: SearchResult| search_result_view(x),
            ) == search_results_upto(nodes, nodes.len() as int),
            None => r matches Err(e) && xml_error_for(e, results_xml@),
        },
{
    let doc = match parse_xml(results_xml) {
        Ok(doc) => doc,
        Err(e) => return Err(e),
    };
    let mut results: Vec<SearchResult> = Vec::new();
    let mut i: usize = 0;
    while i < doc.nodes.len()
        invariant
            i <= doc.nodes.len(),
            results@.map_values(|x: SearchResult| search_result_view(x)) == search_results_upto(
                doc@,
                i as int,
            ),
        decreases doc.nodes.len() - i,
    {
        let node = &doc.nodes[i];
        assert(doc@[i as int] == node@);
        if node.is_element && has_tag(node, "best_book") {
            match last_text_exec(&doc, i, "id", true) {
                Some(t) => match parse_u32(t.as_str()) {
                    Some(id) => {
                        let title = string_or_empty(last_text_exec(&doc, i, "title", false));
                        let author = string_or_empty(last_text_exec(&doc, i, "name", false));
                        let ghost before = results@.map_values(|x: SearchResult| search_result_view(x));
                        let result = SearchResult { id, title, author };
                        let ghost v = search_result_view(result);
                        results.push(result);
                        assert(results@.map_values(|x: SearchResult| search_result_view(x)) =~= before.push(v));
                    },
                    None => {},
                },
                None => {},
            }
        }
        i = i + 1;
    }
    Ok(results)
}

} // verus!
