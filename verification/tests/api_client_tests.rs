use goodreads_sh::actions::get_user_shelves;
use goodreads_sh::api_client::{
    make_oauthd_request, params_can_be_signed, request_failed_message, GoodreadsApiClient, Percentage,
    UPDATE_STATUS,
};
use goodreads_sh::config::GoodReadsConfig;
use goodreads_sh::models::Book;
use goodreads_sh::oauth::{oauth_header_string_to_form_data, OAuthAccessToken};

fn client() -> GoodreadsApiClient {
    GoodreadsApiClient::new(42, "dev key", "dev secret", "access", "access secret")
}

fn book(id: u32) -> Book {
    Book { id, description: String::new(), title: String::from("T"), num_pages: Some(100) }
}

#[test]
fn percentage_accepts_zero_to_a_hundred() {
    assert_eq!(Percentage::new(0).map(Percentage::unwrap), Some(0));
    assert_eq!(Percentage::new(55).map(Percentage::unwrap), Some(55));
    assert_eq!(Percentage::new(100).map(Percentage::unwrap), Some(100));
    assert!(Percentage::new(101).is_none());
    assert!(Percentage::new(255).is_none());
}

#[test]
fn user_id_is_a_placeholder() {
    assert_eq!(client().user_id(), 10000);
    assert_eq!(client().user_id, 42);
}

#[test]
fn update_status_refuses_a_body() {
    let b = book(1);
    match client().update_status(Some(&b), Some(1), None, Some(String::from("hi"))) {
        Err(e) => assert_eq!(e, "Sending status updates with a 'body' is not yet supported."),
        Ok(_) => panic!("a body is refused"),
    }
}

#[test]
fn update_status_needs_a_book() {
    match client().update_status(None, Some(1), None, None) {
        Err(e) => assert_eq!(e, "Sending status updates without a book is not yet supported."),
        Ok(_) => panic!("a book is needed"),
    }
}

#[test]
fn update_status_refuses_both_page_and_percent() {
    let b = book(1);
    match client().update_status(Some(&b), Some(3), Percentage::new(10), None) {
        Err(e) => assert_eq!(e, "Cannot specify both 'page' and 'percent' progress indicators. Choose 1."),
        Ok(_) => panic!("page and percent together are refused"),
    }
}

#[test]
fn update_status_with_a_page_posts_the_page_and_the_book() {
    let b = book(123);
    let request = match client().update_status(Some(&b), Some(45), None, None) {
        Ok(r) => r,
        Err(e) => panic!("{}", e),
    };
    assert_eq!(request.method, "POST");
    assert_eq!(request.url, UPDATE_STATUS);
    assert_eq!(request.body, "user_status[book]=123&user_status[page]=45");
    assert!(request.authorization.starts_with("OAuth "));
    let form = oauth_header_string_to_form_data(&request.authorization);
    assert!(form.contains(&(String::from("oauth_consumer_key"), String::from("dev%20key"))));
    assert!(form.contains(&(String::from("oauth_token"), String::from("access"))));
}

#[test]
fn update_status_with_a_percentage_posts_the_percentage() {
    let b = book(7);
    let request = match client().update_status(Some(&b), None, Percentage::new(60), None) {
        Ok(r) => r,
        Err(e) => panic!("{}", e),
    };
    assert_eq!(request.body, "user_status[book]=7&user_status[percent]=60");
}

#[test]
fn update_status_without_progress_posts_the_book_only() {
    let b = book(9);
    let request = match client().update_status(Some(&b), None, None, None) {
        Ok(r) => r,
        Err(e) => panic!("{}", e),
    };
    assert_eq!(request.body, "user_status[book]=9");
}

#[test]
fn failed_requests_are_reported() {
    assert_eq!(request_failed_message("timeout"), "Request failed: timeout");
}

#[test]
fn user_shelves_from_a_response() {
    let xml = String::from("<shelves><user_shelf><name>read</name></user_shelf></shelves>");
    let shelves = get_user_shelves(Ok(xml)).unwrap_or_else(|e| panic!("{}", e));
    assert_eq!(shelves.len(), 1);
    assert_eq!(shelves[0].name, "read");
    match get_user_shelves(Err(String::from("offline"))) {
        Err(e) => assert_eq!(e, "offline"),
        Ok(_) => panic!("the request's error is passed on"),
    }
    match get_user_shelves(Ok(String::from("<shelves>"))) {
        Err(e) => assert!(e.starts_with("Error: ")),
        Ok(_) => panic!("malformed XML is an error"),
    }
}

#[test]
fn config_takes_the_access_token_and_user_id() {
    let config = GoodReadsConfig {
        developer_key: String::from("k"),
        developer_secret: String::from("s"),
        access_token: None,
        access_token_secret: None,
        user_id: None,
    };
    let token = OAuthAccessToken { token: String::from("t"), token_secret: String::from("ts") };
    let config = config.with_access_token(&token).with_user_id(5);
    assert_eq!(config.access_token.as_deref(), Some("t"));
    assert_eq!(config.access_token_secret.as_deref(), Some("ts"));
    assert_eq!(config.user_id, Some(5));
    assert_eq!(config.developer_key, "k");
}

fn value_of<'a>(pairs: &'a [(String, String)], name: &str) -> &'a str {
    pairs.iter().find(|(k, _)| k == name).map(|(_, v)| v.as_str()).unwrap()
}

/// The signature that the pairs of a signed header (values percent-encoded) and the body
/// parameters (values as sent) call for, percent-encoded as the header carries it.
fn expected_signature(
    header_pairs: &[(String, String)],
    body_params: &[(&str, &str)],
    method: &str,
    url: &str,
    consumer_secret: &str,
    token_secret: &str,
) -> String {
    let encode = |s: &str| oauth_client::percent_encode_string(s).into_owned();
    let mut entries: Vec<String> = header_pairs
        .iter()
        .filter(|(k, _)| k != "oauth_signature")
        .map(|(k, v)| format!("{}={}", encode(k), v))
        .collect();
    for (k, v) in body_params {
        entries.push(format!("{}={}", encode(k), encode(v)));
    }
    entries.sort();
    let query = entries.join("&");
    encode(&oauth_client::signature(method, url, &query, consumer_secret, Some(token_secret)))
}

#[test]
fn status_update_is_signed_for_a_post_of_the_status_url() {
    let b = book(123);
    let request = match client().update_status(Some(&b), Some(45), None, None) {
        Ok(r) => r,
        Err(e) => panic!("{}", e),
    };
    let form = oauth_header_string_to_form_data(&request.authorization);
    let params = [("user_status[book]", "123"), ("user_status[page]", "45")];
    let expected =
        expected_signature(&form, &params, "POST", UPDATE_STATUS, "dev secret", "access secret");
    assert_eq!(value_of(&form, "oauth_signature"), expected);
    let as_get = expected_signature(&form, &params, "GET", UPDATE_STATUS, "dev secret", "access secret");
    assert_ne!(value_of(&form, "oauth_signature"), as_get);
    let swapped =
        expected_signature(&form, &params, "POST", UPDATE_STATUS, "access secret", "dev secret");
    assert_ne!(value_of(&form, "oauth_signature"), swapped);
}

#[test]
fn oauth_parameters_go_into_the_header() {
    let params = vec![
        (String::from("oauth_callback"), String::from("oob")),
        (String::from("oauth_version"), String::from("2.0")),
        (String::from("shelf"), String::from("to read")),
    ];
    assert!(params_can_be_signed(&params));
    let request = make_oauthd_request(&client(), "GET", "https://example.com/list", &params);
    assert_eq!(request.body, "shelf=to%20read");
    let form = oauth_header_string_to_form_data(&request.authorization);
    assert_eq!(value_of(&form, "oauth_callback"), "oob");
    assert_eq!(value_of(&form, "oauth_version"), "2.0");
    assert_eq!(form.iter().filter(|(k, _)| k == "oauth_version").count(), 1);
    let expected = expected_signature(
        &form,
        &[("shelf", "to read")],
        "GET",
        "https://example.com/list",
        "dev secret",
        "access secret",
    );
    assert_eq!(value_of(&form, "oauth_signature"), expected);
}

#[test]
fn parameters_with_one_name_twice_cannot_be_signed() {
    let params = vec![(String::from("a"), String::from("1")), (String::from("a"), String::from("2"))];
    assert!(!params_can_be_signed(&params));
    let params = vec![(String::from("a"), String::from("1")), (String::from("b"), String::from("2"))];
    assert!(params_can_be_signed(&params));
}

#[test]
fn user_shelves_error_carries_the_parser_debug_text() {
    let bad = "<shelves>";
    let parser_error = roxmltree::Document::parse(bad).unwrap_err();
    match get_user_shelves(Ok(String::from(bad))) {
        Err(e) => assert_eq!(e, format!("Error: {:?}", parser_error)),
        Ok(_) => panic!("malformed XML is an error"),
    }
}

#[test]
fn shelf_and_search_requests_carry_their_parameters() {
    let c = client();
    let r = c.list_shelf_request("currently-reading");
    assert_eq!(r.method, "GET");
    assert_eq!(r.url, goodreads_sh::api_client::LIST_SHELF);
    assert_eq!(r.body, "id=42&shelf=currently-reading");
    let r = c.list_shelves_request();
    assert_eq!(r.url, goodreads_sh::api_client::LIST_SHELVES);
    assert_eq!(r.body, "user_id=42");
    let r = c.search_books_request("dune messiah", "title");
    assert_eq!(r.url, goodreads_sh::api_client::SEARCH_BOOKS);
    assert_eq!(r.body, "q=dune%20messiah&search[field]=title");
    let r = c.add_to_shelf_request(9282, "to-read");
    assert_eq!(r.method, "POST");
    assert_eq!(r.url, goodreads_sh::api_client::ADD_TO_SHELF);
    assert_eq!(r.body, "book_id=9282&name=to-read");
    let r = c.remove_from_shelf_request(9282, "to-read");
    assert_eq!(r.body, "a=remove&book_id=9282&name=to-read");
    let form = oauth_header_string_to_form_data(&r.authorization);
    let params = [("a", "remove"), ("book_id", "9282"), ("name", "to-read")];
    let expected =
        expected_signature(&form, &params, "POST", goodreads_sh::api_client::ADD_TO_SHELF, "dev secret", "access secret");
    assert_eq!(value_of(&form, "oauth_signature"), expected);
}

#[test]
fn the_timestamp_is_a_decimal_integer() {
    let request = client().list_shelves_request();
    let form = oauth_header_string_to_form_data(&request.authorization);
    let timestamp = value_of(&form, "oauth_timestamp");
    let t: i64 = timestamp.parse().unwrap();
    assert_eq!(t.to_string(), timestamp);
}
