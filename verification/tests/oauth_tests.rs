use goodreads_sh::oauth::{
    access_token_request_url, authorize_url, is_authorization_confirmed, lookup_param,
    oauth_header_string_into_query_string, oauth_header_string_to_form_data,
    request_token_authorization, token_from_response,
};

fn pairs(v: &[(&str, &str)]) -> Vec<(String, String)> {
    v.iter().map(|(k, x)| (k.to_string(), x.to_string())).collect()
}

#[test]
fn header_to_form_data_reads_the_pairs() {
    let header = "OAuth oauth_consumer_key=\"key\", oauth_nonce=\"abc123\", oauth_signature=\"a%2Fb%3D\"";
    assert_eq!(
        oauth_header_string_to_form_data(header),
        pairs(&[("oauth_consumer_key", "key"), ("oauth_nonce", "abc123"), ("oauth_signature", "a%2Fb%3D")])
    );
}

#[test]
fn header_to_form_data_takes_the_text_up_to_the_next_equals_sign() {
    let header = "OAuth k=\"v\"=rest";
    assert_eq!(oauth_header_string_to_form_data(header), pairs(&[("k", "v")]));
    let header = "OAuth k=\"\"";
    assert_eq!(oauth_header_string_to_form_data(header), pairs(&[("k", "")]));
}

#[test]
fn header_into_query_string_joins_the_pairs() {
    let header = "OAuth oauth_consumer_key=\"key\", oauth_token=\"tok\", oauth_version=\"1.0\"";
    assert_eq!(
        oauth_header_string_into_query_string(header),
        "oauth_consumer_key=key&oauth_token=tok&oauth_version=1.0"
    );
}

#[test]
fn signed_request_token_header_reads_back() {
    let header = request_token_authorization("my key", "secret", "https://www.goodreads.com/oauth/request_token");
    assert!(header.starts_with("OAuth "));
    let form = oauth_header_string_to_form_data(&header);
    assert!(form.contains(&(String::from("oauth_consumer_key"), String::from("my%20key"))));
    assert!(form.contains(&(String::from("oauth_signature_method"), String::from("HMAC-SHA1"))));
    assert!(form.contains(&(String::from("oauth_version"), String::from("1.0"))));
    assert!(!form.iter().any(|(k, _)| k == "oauth_token"));
}

#[test]
fn access_token_url_carries_the_signed_parameters() {
    let url = access_token_request_url(
        "https://www.goodreads.com/oauth/access_token",
        "key",
        "secret",
        "request-token",
        "request-secret",
    );
    let prefix = "https://www.goodreads.com/oauth/access_token?";
    assert!(url.starts_with(prefix));
    let query = &url[prefix.len()..];
    let names: Vec<&str> = query.split('&').map(|p| p.split('=').next().unwrap()).collect();
    assert!(query.split('&').any(|p| p == "oauth_token=request-token"));
    assert!(query.split('&').any(|p| p == "oauth_consumer_key=key"));
    assert!(names.contains(&"oauth_signature"));
    assert!(names.contains(&"oauth_nonce"));
    assert!(names.contains(&"oauth_timestamp"));
}

#[test]
fn token_response_gives_token_and_secret() {
    let t = token_from_response("oauth_token=abc&oauth_token_secret=s%2Fecret").unwrap();
    assert_eq!(t.token, "abc");
    assert_eq!(t.token_secret, "s/ecret");
    let t = token_from_response("oauth_token=first&oauth_token_secret=x&oauth_token=second").unwrap();
    assert_eq!(t.token, "second");
    assert!(token_from_response("oauth_token=abc").is_none());
    assert!(token_from_response("").is_none());
}

#[test]
fn lookup_param_takes_the_last_value() {
    let p = pairs(&[("a", "1"), ("b", "2"), ("a", "3")]);
    assert_eq!(lookup_param(&p, "a"), Some(String::from("3")));
    assert_eq!(lookup_param(&p, "b"), Some(String::from("2")));
    assert_eq!(lookup_param(&p, "c"), None);
}

#[test]
fn authorize_url_names_the_request_token() {
    assert_eq!(
        authorize_url("https://www.goodreads.com/oauth/authorize", "tok"),
        "https://www.goodreads.com/oauth/authorize?oauth_token=tok"
    );
}

#[test]
fn confirmation_is_a_trimmed_y() {
    assert!(is_authorization_confirmed("y\n"));
    assert!(is_authorization_confirmed("  y  "));
    assert!(!is_authorization_confirmed("yes\n"));
    assert!(!is_authorization_confirmed("Y"));
    assert!(!is_authorization_confirmed(""));
}

/// The signature that the pairs of a signed header (values percent-encoded) and the body
/// parameters (values as sent) call for, percent-encoded as the header carries it.
fn expected_signature(
    header_pairs: &[(String, String)],
    body_params: &[(&str, &str)],
    method: &str,
    url: &str,
    consumer_secret: &str,
    token_secret: Option<&str>,
) -> String {
    let encode = |s: &str| oauth_client::percent_encode_string(s).into_owned();
    let mut entries: Vec<String> = header_pairs
        .iter()
        .filter(|(k, _)| k != "oauth_signature")
        .map(|(k, v)| format!("{}={}", encode(k), v))
        .collect();
    for (k, v) in body_params {
        entries.push(format!("{}={}", encode(k), encode(v)));
    }
    entries.sort();
    let query = entries.join("&");
    encode(&oauth_client::signature(method, url, &query, consumer_secret, token_secret))
}

fn value_of<'a>(pairs: &'a [(String, String)], name: &str) -> &'a str {
    pairs.iter().find(|(k, _)| k == name).map(|(_, v)| v.as_str()).unwrap()
}

#[test]
fn request_token_header_is_signed_for_a_get_of_its_url() {
    let url = "https://www.goodreads.com/oauth/request_token";
    let header = request_token_authorization("my key", "my secret", url);
    let form = oauth_header_string_to_form_data(&header);
    let expected = expected_signature(&form, &[], "GET", url, "my secret", None);
    assert_eq!(value_of(&form, "oauth_signature"), expected);
    let wrong = expected_signature(&form, &[], "POST", url, "my secret", None);
    assert_ne!(value_of(&form, "oauth_signature"), wrong);
    assert_eq!(value_of(&form, "oauth_nonce").len(), 32);
    assert!(value_of(&form, "oauth_nonce").chars().all(|c| c.is_ascii_alphanumeric()));
    let mut names: Vec<&str> = form.iter().map(|(k, _)| k.as_str()).collect();
    let sorted = {
        let mut s = names.clone();
        s.sort();
        s
    };
    assert_eq!(names, sorted);
    names.dedup();
    assert_eq!(names.len(), 6);
}

#[test]
fn access_token_url_is_signed_with_both_secrets() {
    let token_url = "https://www.goodreads.com/oauth/access_token";
    let url = access_token_request_url(token_url, "key", "secret", "request-token", "request-secret");
    let query = &url[token_url.len() + 1..];
    let form: Vec<(String, String)> = query
        .split('&')
        .map(|p| {
            let mut parts = p.splitn(2, '=');
            (parts.next().unwrap().to_string(), parts.next().unwrap().to_string())
        })
        .collect();
    let expected = expected_signature(&form, &[], "GET", token_url, "secret", Some("request-secret"));
    assert_eq!(value_of(&form, "oauth_signature"), expected);
    let swapped = expected_signature(&form, &[], "GET", token_url, "request-secret", Some("secret"));
    assert_ne!(value_of(&form, "oauth_signature"), swapped);
}

#[test]
fn header_with_spaces_and_commas_in_its_values_reads_back() {
    let header = "OAuth a b=\"x,y\", c=\"d e\", f,g=\"\"";
    assert_eq!(
        oauth_header_string_to_form_data(header),
        pairs(&[("a b", "x,y"), ("c", "d e"), ("f,g", "")])
    );
    assert_eq!(oauth_header_string_into_query_string(header), "a b=x,y&c=d e&f,g=");
}
