//! The Goodreads API client: credentials, progress values and signed status updates.
use vstd::prelude::*;

use crate::models::Book;
use crate::oauth::{
    lookup_last, nonce_ok, oauth_header_text, oauth_signature, pairs_view, percent_encode, protocol_params,
    signature_base, signed_header, signed_pairs, signing_key, sorted_arrangement,
    starts_with_oauth, timestamp_ok,
};
use crate::text::{decimal, is_decimal_of, join, law_decimal_is_canonical, u32_to_decimal};

verus! {

/// The endpoint that tells the id of the authorized user.
pub const USER_ID: &'static str = "https://www.goodreads.com/api/auth_user";

/// The endpoint that lists the books on a shelf.
pub const LIST_SHELF: &'static str = "https://www.goodreads.com/review/list?v=2";

/// The endpoint that adds a book to a shelf.
pub const ADD_TO_SHELF: &'static str = "https://www.goodreads.com/shelf/add_to_shelf.xml";

/// The endpoint that lists the user's shelves.
pub const LIST_SHELVES: &'static str = "https://www.goodreads.com/shelf/list.xml";

/// The endpoint that searches books.
pub const SEARCH_BOOKS: &'static str = "https://www.goodreads.com/search/index.xml";

/// The endpoint that posts a reading status update.
pub const UPDATE_STATUS: &'static str = "https://www.goodreads.com/user_status.xml";

// ---------------------------------------------------------------------------
// Progress as a percentage
// ---------------------------------------------------------------------------

/// A reading progress given as a percentage of a book, from 0 to 100.
#[derive(Clone, Copy, Debug)]
pub struct Percentage(u8);

impl Percentage {
    /// The percentage as a number.
    pub closed spec fn value(self) -> u8 {
        self.0
    }

    #[verifier::type_invariant]
    closed spec fn at_most_100(self) -> bool {
        self.0 <= 100
    }

    /// The percentage `x`, or `None` when `x` is above 100.
    pub fn new(x: u8) -> (r: Option<Percentage>)
        ensures
            x <= 100 <==> r is Some,
            r matches Some(p) ==> p.value() == x,
    {
        if x <= 100 {
            Some(Percentage(x))
        } else {
            None
        }
    }

    /// The number that `p` holds, which is at most 100.
    pub fn unwrap(p: Percentage) -> (x: u8)
        ensures
            x == p.value(),
            x <= 100,
    {
        proof {
            use_type_invariant(&p);
        }
        p.0
    }
}

// ---------------------------------------------------------------------------
// The client
// ---------------------------------------------------------------------------

/// The developer key and secret of the application and the user's OAuth access token.
pub struct GoodreadsApiClientAuth {
    developer_key: String,
    developer_secret: String,
    oauth_access_token: String,
    oauth_access_token_secret: String,
}

impl GoodreadsApiClientAuth {
    /// The developer key.
    pub closed spec fn spec_developer_key(&self) -> Seq<char> {
        self.developer_key@
    }

    /// The developer secret.
    pub closed spec fn spec_developer_secret(&self) -> Seq<char> {
        self.developer_secret@
    }

    /// The OAuth access token.
    pub closed spec fn spec_access_token(&self) -> Seq<char> {
        self.oauth_access_token@
    }

    /// The OAuth access token secret.
    pub closed spec fn spec_access_token_secret(&self) -> Seq<char> {
        self.oauth_access_token_secret@
    }
}

#[verifier::external_type_specification]
#[verifier::external_body]
pub struct ExHttpClient(reqwest::blocking::Client);

/// Calls `reqwest::blocking::Client::new()`. Nothing is claimed of the client, which the
/// library only carries. The call takes no argument; the panics that reqwest documents
/// for it (no TLS backend or resolver can be set up, or the call is made inside an async
/// runtime) come from the machine and the calling context, so no `requires` can rule
/// them out.
#[verifier::external_body]
fn new_http_client() -> reqwest::blocking::Client {
    reqwest::blocking::Client::new()
}

/// A client of the Goodreads API for one authorized user.
pub struct GoodreadsApiClient {
    pub auth: GoodreadsApiClientAuth,
    pub user_id: u32,
    pub client: reqwest::blocking::Client,
}

/// A request signed with OAuth 1.0, ready to be sent.
pub struct OAuthRequest {
    /// The HTTP method the request was signed for.
    pub method: String,
    pub url: String,
    /// The value of the `Authorization` header.
    pub authorization: String,
    /// The form-encoded body.
    pub body: String,
}

/// The body entry `name=value` of a parameter, its value percent-encoded.
pub open spec fn body_entry(p: (Seq<char>, Seq<char>)) -> Seq<char> {
    p.0 + seq!['='] + percent_encode(p.1)
}

/// `body` is the form body of `params`: the entries `name=value` of the parameters whose
/// names do not begin with `oauth_`, values percent-encoded, in ascending order, joined
/// with `&`.
pub open spec fn oauth_form_body(body: Seq<char>, params: Seq<(Seq<char>, Seq<char>)>) -> bool {
    exists|entries: Seq<Seq<char>>|
        #![trigger join(entries, seq!['&'])]
        {
            &&& sorted_arrangement(
                entries,
                params.filter(|p: (Seq<char>, Seq<char>)| !starts_with_oauth(p.0)).map_values(
                    |p: (Seq<char>, Seq<char>)| body_entry(p),
                ),
            )
            &&& body == join(entries, seq!['&'])
        }
}

/// No two parameters have the same name: the parameters are those of a map.
pub open spec fn request_params_ok(params: Seq<(Seq<char>, Seq<char>)>) -> bool {
    forall|i: int, j: int|
        0 <= i < j < params.len() ==> (#[trigger] params[i]).0 != (#[trigger] params[j]).0
}

/// One of `params` is named `name`.
pub open spec fn has_name(params: Seq<(Seq<char>, Seq<char>)>, name: Seq<char>) -> bool {
    exists|i: int| 0 <= i < params.len() && (#[trigger] params[i]).0 == name
}

/// The parameters `base` with each of `extra` put in as a map's `insert` puts it, the
/// names of `extra` being distinct: a parameter of `base` whose name is among those of
/// `extra` is replaced.
pub open spec fn merge_params(
    base: Seq<(Seq<char>, Seq<char>)>,
    extra: Seq<(Seq<char>, Seq<char>)>,
) -> Seq<(Seq<char>, Seq<char>)> {
    base.filter(|p: (Seq<char>, Seq<char>)| !has_name(extra, p.0)) + extra
}

/// `header` and `body` are what `oauth_client::authorization_header` gives for a `method`
/// request of `uri` by the consumer `(consumer_key, consumer_secret)` with the token
/// `(token_key, token_secret)` and the parameters `params`: for a nonce ([`nonce_ok`]) and a
/// timestamp ([`timestamp_ok`]),
/// the [`protocol_params`] with `params` put in over them are signed as
/// [`signed_header`] says, and `body` is their [`oauth_form_body`].
pub open spec fn oauth_client_signed(
    header: Seq<char>,
    body: Seq<char>,
    method: Seq<char>,
    uri: Seq<char>,
    consumer_key: Seq<char>,
    consumer_secret: Seq<char>,
    token_key: Seq<char>,
    token_secret: Seq<char>,
    params: Seq<(Seq<char>, Seq<char>)>,
) -> bool {
    exists|nonce: Seq<char>, timestamp: Seq<char>|
        #![trigger protocol_params(consumer_key, nonce, timestamp, Some(token_key))]
        {
            let all = merge_params(
                protocol_params(consumer_key, nonce, timestamp, Some(token_key)),
                params,
            );
            &&& nonce_ok(nonce)
                &&& timestamp_ok(timestamp)
            &&& signed_header(header, method, uri, consumer_secret, token_secret, all)
            &&& oauth_form_body(body, all)
        }
}

/// Calls `oauth_client::authorization_header(method, uri, consumer, Some(token),
/// Some(params))`, which signs a request with HMAC-SHA1 and gives its `Authorization`
/// header and its form body.
/// Claimed of it, from its source: for some nonce and timestamp, the parameters are the
/// [`protocol_params`] of the consumer key and token key with `params` put in over them
/// ([`merge_params`]); the header holds them signed as [`signed_pairs`] says, the
/// signature being [`oauth_signature`] of the [`signature_base`] of `method`, `uri` and
/// the signed query under the [`signing_key`] of the two secrets; the body is their
/// [`oauth_form_body`]. The nonce is drawn at random and the timestamp read from the
/// clock, so only their forms are stated (32 ASCII letters and digits; the decimal form
/// of an `i64`), and of the signature only what it is computed from.
#[verifier::external_body]
fn oauth_client_authorization(
    method: &str,
    uri: &str,
    consumer_key: &str,
    consumer_secret: &str,
    token_key: &str,
    token_secret: &str,
    params: &Vec<(String, String)>,
) -> (signed: (String, String))
    requires
        request_params_ok(pairs_view(params@)),
    ensures
        exists|
            nonce: Seq<char>,
            timestamp: Seq<char>,
            entries: Seq<Seq<char>>,
            pairs: Seq<(Seq<char>, Seq<char>)>,
        |
            #![trigger protocol_params(consumer_key@, nonce, timestamp, Some(token_key@)), oauth_header_text(pairs), join(entries, seq!['&'])]
            {
                let all = merge_params(
                    protocol_params(consumer_key@, nonce, timestamp, Some(token_key@)),
                    pairs_view(params@),
                );
                &&& nonce_ok(nonce)
                &&& timestamp_ok(timestamp)
                &&& signed_pairs(
                    signed.0@,
                    all,
                    entries,
                    pairs,
                    oauth_signature(
                        signature_base(method@, uri@, join(entries, seq!['&'])),
                        signing_key(consumer_secret@, token_secret@),
                    ),
                )
                &&& oauth_form_body(signed.1@, all)
            },
{
    let consumer = oauth_client::Token::new(consumer_key, consumer_secret);
    let token = oauth_client::Token::new(token_key, token_secret);
    let param_list: oauth_client::ParamList = params
        .iter()
        .map(|(k, v)| (std::borrow::Cow::from(k.as_str()), std::borrow::Cow::from(v.as_str())))
        .collect();
    oauth_client::authorization_header(method, uri, &consumer, Some(&token), Some(&param_list))
}

/// What a status update says: the error message when it cannot be sent, in the order the
/// checks are made.
pub open spec fn status_update_error(
    has_book: bool,
    page: Option<u32>,
    percent: Option<Percentage>,
    has_body: bool,
) -> Option<Seq<char>> {
    if has_body {
        Some("Sending status updates with a 'body' is not yet supported."@)
    } else if !has_book {
        Some("Sending status updates without a book is not yet supported."@)
    } else if page is Some && percent is Some {
        Some("Cannot specify both 'page' and 'percent' progress indicators. Choose 1."@)
    } else {
        None
    }
}

/// The parameters of a status update for the book `book_id`: the page, or else the
/// percentage, when one is given, and then the book id, each in decimal.
pub open spec fn status_update_params(
    book_id: u32,
    page: Option<u32>,
    percent: Option<Percentage>,
) -> Seq<(Seq<char>, Seq<char>)> {
    let progress = match page {
        Some(p) => seq![("user_status[page]"@, decimal(p as nat))],
        None => match percent {
            Some(q) => seq![("user_status[percent]"@, decimal(q.value() as nat))],
            None => Seq::empty(),
        },
    };
    progress.push(("user_status[book]"@, decimal(book_id as nat)))
}

/// The parameters of a status update have distinct names.
proof fn lemma_status_update_params_ok(book_id: u32, page: Option<u32>, percent: Option<Percentage>)
    ensures
        request_params_ok(status_update_params(book_id, page, percent)),
{
    reveal_strlit("user_status[page]");
    reveal_strlit("user_status[percent]");
    reveal_strlit("user_status[book]");
    assert("user_status[page]"@[12] != "user_status[book]"@[12]);
    assert("user_status[percent]"@[12] != "user_status[book]"@[12]);
}

/// A status update sends the book's id, and the page when one is given or else the
/// percentage when one is given, each as the decimal form of the number given (looked up
/// by name, as the server reads the form).
pub proof fn law_status_update_sends_its_numbers(
    book_id: u32,
    page: Option<u32>,
    percent: Option<Percentage>,
)
    ensures
        ({
            let params = status_update_params(book_id, page, percent);
            &&& lookup_last(params, "user_status[book]"@) matches Some(v) && is_decimal_of(
                v,
                book_id as nat,
            )
            &&& match page {
                Some(p) => lookup_last(params, "user_status[page]"@) matches Some(v)
                    && is_decimal_of(v, p as nat) && lookup_last(params, "user_status[percent]"@)
                    is None,
                None => lookup_last(params, "user_status[page]"@) is None && match percent {
                    Some(q) => lookup_last(params, "user_status[percent]"@) matches Some(v)
                        && is_decimal_of(v, q.value() as nat),
                    None => lookup_last(params, "user_status[percent]"@) is None,
                },
            }
        }),
{
    reveal_strlit("user_status[page]");
    reveal_strlit("user_status[percent]");
    reveal_strlit("user_status[book]");
    reveal_with_fuel(lookup_last, 3);
    assert("user_status[page]"@[12] != "user_status[book]"@[12]);
    assert("user_status[percent]"@[12] != "user_status[book]"@[12]);
    assert("user_status[percent]"@.len() != "user_status[page]"@.len());
    law_decimal_is_canonical(book_id as nat);
    match page {
        Some(p) => law_decimal_is_canonical(p as nat),
        None => match percent {
            Some(q) => law_decimal_is_canonical(q.value() as nat),
            None => {},
        },
    }
}

impl GoodreadsApiClient {
    /// The id of the authorized user; a fixed placeholder for now.
    pub fn user_id(&self) -> (id: usize)
        ensures
            id == 10000,
    {
        10000
    }

    /// A client for the user `user_id` with the given credentials.
    pub fn new(
        user_id: u32,
        developer_key: &str,
        developer_secret: &str,
        oauth_access_token: &str,
        oauth_access_token_secret: &str,
    ) -> (c: GoodreadsApiClient)
        ensures
            c.user_id == user_id,
            c.auth.spec_developer_key() == developer_key@,
            c.auth.spec_developer_secret() == developer_secret@,
            c.auth.spec_access_token() == oauth_access_token@,
            c.auth.spec_access_token_secret() == oauth_access_token_secret@,
    {
        let auth = GoodreadsApiClientAuth {
            developer_key: String::from_str(developer_key),
            developer_secret: String::from_str(developer_secret),
            oauth_access_token: String::from_str(oauth_access_token),
            oauth_access_token_secret: String::from_str(oauth_access_token_secret),
        };
        GoodreadsApiClient { auth, user_id, client: new_http_client() }
    }

    /// The status update of reading `book`, at `page` or `percent`, signed for a POST to
    /// the status endpoint; or the reason it cannot be sent: a `body`, a missing book, or
    /// both a page and a percentage.
    pub fn update_status(
        &self,
        book: Option<&Book>,
        page: Option<u32>,
        percent: Option<Percentage>,
        body: Option<String>,
    ) -> (r: Result<OAuthRequest, String>)
        ensures
            match status_update_error(book is Some, page, percent, body is Some) {
                Some(message) => r matches Err(e) && e@ == message,
                None => r matches Ok(request) && {
                    &&& request.method@ == "POST"@
                    &&& request.url@ == UPDATE_STATUS@
                    &&& oauth_client_signed(
                        request.authorization@,
                        request.body@,
                        "POST"@,
                        UPDATE_STATUS@,
                        self.auth.spec_developer_key(),
                        self.auth.spec_developer_secret(),
                        self.auth.spec_access_token(),
                        self.auth.spec_access_token_secret(),
                        status_update_params(book.unwrap().id, page, percent),
                    )
                },
            },
    {
        if body.is_some() {
            return Err(String::from_str("Sending status updates with a 'body' is not yet supported."));
        } else if book.is_none() {
            return Err(String::from_str("Sending status updates without a book is not yet supported."));
        } else if page.is_some() && percent.is_some() {
            return Err(
                String::from_str(
                    "Cannot specify both 'page' and 'percent' progress indicators. Choose 1.",
                ),
            );
        }
        let mut req_params: Vec<(String, String)> = Vec::new();
        match page {
            Some(p) => {
                req_params.push((String::from_str("user_status[page]"), u32_to_decimal(p)));
            },
            None => match percent {
                Some(q) => {
                    let x = Percentage::unwrap(q);
                    req_params.push(
                        (String::from_str("user_status[percent]"), u32_to_decimal(x as u32)),
                    );
                },
                None => {},
            },
        }
        let book_id = match book {
            Some(b) => b.id,
            None => 0,
        };
        req_params.push((String::from_str("user_status[book]"), u32_to_decimal(book_id)));
        proof {
            reveal_strlit("user_status[page]");
            reveal_strlit("user_status[percent]");
            reveal_strlit("user_status[book]");
            assert(pairs_view(req_params@) =~= status_update_params(book_id, page, percent));
            lemma_status_update_params_ok(book_id, page, percent);
        }
        Ok(make_oauthd_request(self, "POST", UPDATE_STATUS, &req_params))
    }
}

/// Whether `params` can be signed (see [`request_params_ok`]).
pub fn params_can_be_signed(params: &Vec<(String, String)>) -> (ok: bool)
    ensures
        ok == request_params_ok(pairs_view(params@)),
{
    let ghost pv = pairs_view(params@);
    let mut i: usize = 0;
    while i < params.len()
        invariant
            i <= params.len(),
            pv == pairs_view(params@),
            forall|a: int, b: int| 0 <= a < b < i ==> (#[trigger] pv[a]).0 != (#[trigger] pv[b]).0,
        decreases params.len() - i,
    {
        let name = crate::text::chars_of(params[i].0.as_str());
        assert(name@ == pv[i as int].0);
        let mut j: usize = 0;
        while j < i
            invariant
                j <= i < params.len(),
                pv == pairs_view(params@),
                name@ == pv[i as int].0,
                forall|b: int| 0 <= b < j ==> pv[b].0 != pv[i as int].0,
            decreases i - j,
        {
            let other = crate::text::chars_of(params[j].0.as_str());
            if crate::text::chars_equal(&other, &name) {
                assert(pv[j as int].0 == pv[i as int].0);
                return false;
            }
            j = j + 1;
        }
        i = i + 1;
    }
    true
}

/// `req_params` signed with the client's developer key and secret and access token and
/// secret for a `method` request of `url`. Parameters whose names begin with `oauth_` go
/// into the `Authorization` header, over the ones the signer makes (all but the
/// signature); the others go into the body.
pub fn make_oauthd_request(
    gr_client: &GoodreadsApiClient,
    method: &str,
    url: &str,
    req_params: &Vec<(String, String)>,
) -> (request: OAuthRequest)
    requires
        request_params_ok(pairs_view(req_params@)),
    ensures
        request.method@ == method@,
        request.url@ == url@,
        oauth_client_signed(
            request.authorization@,
            request.body@,
            method@,
            url@,
            gr_client.auth.spec_developer_key(),
            gr_client.auth.spec_developer_secret(),
            gr_client.auth.spec_access_token(),
            gr_client.auth.spec_access_token_secret(),
            pairs_view(req_params@),
        ),
{
    let (authorization, body) = oauth_client_authorization(
        method,
        url,
        gr_client.auth.developer_key.as_str(),
        gr_client.auth.developer_secret.as_str(),
        gr_client.auth.oauth_access_token.as_str(),
        gr_client.auth.oauth_access_token_secret.as_str(),
        req_params,
    );
    OAuthRequest {
        method: String::from_str(method),
        url: String::from_str(url),
        authorization,
        body,
    }
}

/// The message of a status update that could not be sent: `Request failed: ` and the
/// error.
pub fn request_failed_message(err: &str) -> (message: String)
    ensures
        message@ == "Request failed: "@ + err@,
{
    let mut message = String::from_str("Request failed: ");
    message.append(err);
    message
}

// ---------------------------------------------------------------------------
// The other requests
// ---------------------------------------------------------------------------

/// The parameters that list the books on the shelf `shelf` of the user `user_id`.
pub open spec fn list_shelf_params(user_id: u32, shelf: Seq<char>) -> Seq<(Seq<char>, Seq<char>)> {
    seq![("shelf"@, shelf), ("id"@, decimal(user_id as nat))]
}

/// The parameters that list the shelves of the user `user_id`.
pub open spec fn list_shelves_params(user_id: u32) -> Seq<(Seq<char>, Seq<char>)> {
    seq![("user_id"@, decimal(user_id as nat))]
}

/// The parameters that search the books whose `field` matches `query`.
pub open spec fn search_books_params(query: Seq<char>, field: Seq<char>) -> Seq<(Seq<char>, Seq<char>)> {
    seq![("q"@, query), ("search[field]"@, field)]
}

/// The parameters that add the book `book_id` to the shelf `shelf`.
pub open spec fn add_to_shelf_params(book_id: u32, shelf: Seq<char>) -> Seq<(Seq<char>, Seq<char>)> {
    seq![("name"@, shelf), ("book_id"@, decimal(book_id as nat))]
}

/// The parameters that remove the book `book_id` from the shelf `shelf`.
pub open spec fn remove_from_shelf_params(book_id: u32, shelf: Seq<char>) -> Seq<(Seq<char>, Seq<char>)> {
    add_to_shelf_params(book_id, shelf).push(("a"@, "remove"@))
}

impl GoodreadsApiClient {
    /// `request` is a `method` request of `url` with the parameters `params`, signed with
    /// this client's developer key and secret and access token and secret.
    pub open spec fn signs(
        &self,
        request: OAuthRequest,
        method: Seq<char>,
        url: Seq<char>,
        params: Seq<(Seq<char>, Seq<char>)>,
    ) -> bool {
        &&& request.method@ == method
        &&& request.url@ == url
        &&& oauth_client_signed(
            request.authorization@,
            request.body@,
            method,
            url,
            self.auth.spec_developer_key(),
            self.auth.spec_developer_secret(),
            self.auth.spec_access_token(),
            self.auth.spec_access_token_secret(),
            params,
        )
    }

    /// The signed GET request that lists the books on the user's shelf `shelf`.
    pub fn list_shelf_request(&self, shelf: &str) -> (request: OAuthRequest)
        ensures
            self.signs(request, "GET"@, LIST_SHELF@, list_shelf_params(self.user_id, shelf@)),
    {
        let mut params: Vec<(String, String)> = Vec::new();
        params.push((String::from_str("shelf"), String::from_str(shelf)));
        params.push((String::from_str("id"), u32_to_decimal(self.user_id)));
        proof {
            reveal_strlit("shelf");
            reveal_strlit("id");
            assert(pairs_view(params@) =~= list_shelf_params(self.user_id, shelf@));
            assert("shelf"@.len() != "id"@.len());
        }
        make_oauthd_request(self, "GET", LIST_SHELF, &params)
    }

    /// The signed GET request that lists the user's shelves.
    pub fn list_shelves_request(&self) -> (request: OAuthRequest)
        ensures
            self.signs(request, "GET"@, LIST_SHELVES@, list_shelves_params(self.user_id)),
    {
        let mut params: Vec<(String, String)> = Vec::new();
        params.push((String::from_str("user_id"), u32_to_decimal(self.user_id)));
        proof {
            assert(pairs_view(params@) =~= list_shelves_params(self.user_id));
        }
        make_oauthd_request(self, "GET", LIST_SHELVES, &params)
    }

    /// The signed GET request that searches the books whose `field` matches `query`.
    pub fn search_books_request(&self, query: &str, field: &str) -> (request: OAuthRequest)
        ensures
            self.signs(request, "GET"@, SEARCH_BOOKS@, search_books_params(query@, field@)),
    {
        let mut params: Vec<(String, String)> = Vec::new();
        params.push((String::from_str("q"), String::from_str(query)));
        params.push((String::from_str("search[field]"), String::from_str(field)));
        proof {
            reveal_strlit("q");
            reveal_strlit("search[field]");
            assert(pairs_view(params@) =~= search_books_params(query@, field@));
            assert("q"@.len() != "search[field]"@.len());
        }
        make_oauthd_request(self, "GET", SEARCH_BOOKS, &params)
    }

    /// The signed POST request that adds the book `book_id` to the shelf `shelf`.
    pub fn add_to_shelf_request(&self, book_id: u32, shelf: &str) -> (request: OAuthRequest)
        ensures
            self.signs(request, "POST"@, ADD_TO_SHELF@, add_to_shelf_params(book_id, shelf@)),
    {
        let mut params: Vec<(String, String)> = Vec::new();
        params.push((String::from_str("name"), String::from_str(shelf)));
        params.push((String::from_str("book_id"), u32_to_decimal(book_id)));
        proof {
            reveal_strlit("name");
            reveal_strlit("book_id");
            assert(pairs_view(params@) =~= add_to_shelf_params(book_id, shelf@));
            assert("name"@.len() != "book_id"@.len());
        }
        make_oauthd_request(self, "POST", ADD_TO_SHELF, &params)
    }

    /// The signed POST request that removes the book `book_id` from the shelf `shelf`.
    pub fn remove_from_shelf_request(&self, book_id: u32, shelf: &str) -> (request: OAuthRequest)
        ensures
            self.signs(
                request,
                "POST"@,
                ADD_TO_SHELF@,
                remove_from_shelf_params(book_id, shelf@),
            ),
    {
        let mut params: Vec<(String, String)> = Vec::new();
        params.push((String::from_str("name"), String::from_str(shelf)));
        params.push((String::from_str("book_id"), u32_to_decimal(book_id)));
        params.push((String::from_str("a"), String::from_str("remove")));
        proof {
            reveal_strlit("name");
            reveal_strlit("book_id");
            reveal_strlit("a");
            assert(pairs_view(params@) =~= remove_from_shelf_params(book_id, shelf@));
            assert("name"@.len() != "book_id"@.len());
            assert("name"@.len() != "a"@.len());
            assert("book_id"@.len() != "a"@.len());
        }
        make_oauthd_request(self, "POST", ADD_TO_SHELF, &params)
    }
}

/// The shelf requests name what they were asked for: the shelf to list and the user, the
/// query and the field to search, and the shelf and book to add or remove (a removal also
/// says `a=remove`), numbers in decimal.
pub proof fn law_shelf_requests_name_their_arguments(
    user_id: u32,
    book_id: u32,
    shelf: Seq<char>,
    query: Seq<char>,
    field: Seq<char>,
)
    ensures
        lookup_last(list_shelf_params(user_id, shelf), "shelf"@) == Some(shelf),
        lookup_last(list_shelf_params(user_id, shelf), "id"@) matches Some(v) && is_decimal_of(
            v,
            user_id as nat,
        ),
        lookup_last(list_shelves_params(user_id), "user_id"@) matches Some(v) && is_decimal_of(
            v,
            user_id as nat,
        ),
        lookup_last(search_books_params(query, field), "q"@) == Some(query),
        lookup_last(search_books_params(query, field), "search[field]"@) == Some(field),
        lookup_last(add_to_shelf_params(book_id, shelf), "name"@) == Some(shelf),
        lookup_last(add_to_shelf_params(book_id, shelf), "book_id"@) matches Some(v)
            && is_decimal_of(v, book_id as nat),
        lookup_last(add_to_shelf_params(book_id, shelf), "a"@) is None,
        lookup_last(remove_from_shelf_params(book_id, shelf), "name"@) == Some(shelf),
        lookup_last(remove_from_shelf_params(book_id, shelf), "book_id"@) matches Some(v)
            && is_decimal_of(v, book_id as nat),
        lookup_last(remove_from_shelf_params(book_id, shelf), "a"@) == Some("remove"@),
{
    reveal_strlit("shelf");
    reveal_strlit("id");
    reveal_strlit("user_id");
    reveal_strlit("q");
    reveal_strlit("search[field]");
    reveal_strlit("name");
    reveal_strlit("book_id");
    reveal_strlit("a");
    reveal_with_fuel(lookup_last, 4);
    assert("shelf"@.len() != "id"@.len());
    assert("q"@.len() != "search[field]"@.len());
    assert("name"@.len() != "book_id"@.len());
    assert("name"@.len() != "a"@.len());
    assert("book_id"@.len() != "a"@.len());
    law_decimal_is_canonical(user_id as nat);
    law_decimal_is_canonical(book_id as nat);
    let add = add_to_shelf_params(book_id, shelf);
    let remove = remove_from_shelf_params(book_id, shelf);
    assert(remove.drop_last() =~= add);
}

} // verus!
