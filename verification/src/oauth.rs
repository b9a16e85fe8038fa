//! OAuth 1.0 headers and token exchanges with the Goodreads authorization endpoints.
use vstd::prelude::*;
use vstd::utf8::*;

use crate::text::{
    chars_equal, chars_of, decimal, join, lacks_char, lemma_sep_free_of_lacks, lemma_split_join, occurs_at,
    sep_free, trim, trim_chars, join_strings, push_char, split, split_chars, string_of, strings_view, sub_chars,
    vecs_view,
};

verus! {

// ---------------------------------------------------------------------------
// The authorization header, read back as key/value pairs
// ---------------------------------------------------------------------------

/// The text of an `OAuth` header after its first six bytes (the `OAuth ` prefix).
pub open spec fn header_body(h: Seq<char>) -> Seq<char> {
    let bytes = encode_utf8(h);
    decode_utf8(bytes.subrange(6, bytes.len() as int))
}

/// The separator between the entries of an `OAuth` header.
pub open spec fn entry_separator() -> Seq<char> {
    seq![',', ' ']
}

/// The entries of an `OAuth` header: its body split at each `", "`.
pub open spec fn header_entries(h: Seq<char>) -> Seq<Seq<char>> {
    split(header_body(h), entry_separator())
}

/// A quoted value: at least two characters, the first and the last of them one byte long
/// in UTF-8, so that dropping one byte at each end drops exactly one character.
pub open spec fn quoted_value_ok(v: Seq<char>) -> bool {
    &&& v.len() >= 2
    &&& (v[0] as u32) < 0x80
    &&& (v.last() as u32) < 0x80
}

/// An entry has a `=` and, after the first `=` and up to the next one, a quoted value.
pub open spec fn entry_ok(e: Seq<char>) -> bool {
    let t = split(e, seq!['=']);
    t.len() >= 2 && quoted_value_ok(t[1])
}

/// The key of an entry (the text before its first `=`) and its value (the text after
/// the first `=` and up to the next one, without its first and last character).
pub open spec fn entry_pair(e: Seq<char>) -> (Seq<char>, Seq<char>) {
    let t = split(e, seq!['=']);
    (t[0], t[1].subrange(1, t[1].len() - 1))
}

/// The header can be read back without a panic: its first six bytes end on a character
/// boundary and each of its entries is well formed.
pub open spec fn oauth_header_well_formed(h: Seq<char>) -> bool {
    &&& is_char_boundary(encode_utf8(h), 6)
    &&& forall|i: int| 0 <= i < header_entries(h).len() ==> #[trigger] entry_ok(header_entries(h)[i])
}

/// The key/value pairs that an `OAuth` header holds, in the header's order.
pub open spec fn oauth_header_pairs(h: Seq<char>) -> Seq<(Seq<char>, Seq<char>)> {
    header_entries(h).map_values(|e: Seq<char>| entry_pair(e))
}

/// The views of a sequence of string pairs.
pub open spec fn pairs_view(v: Seq<(String, String)>) -> Seq<(Seq<char>, Seq<char>)> {
    v.map_values(|p: (String, String)| (p.0@, p.1@))
}

/// `key=value` for each pair, joined with `&`.
pub open spec fn query_string(pairs: Seq<(Seq<char>, Seq<char>)>) -> Seq<char> {
    join(pairs.map_values(|p: (Seq<char>, Seq<char>)| p.0 + seq!['='] + p.1), seq!['&'])
}

/// The key/value pairs of an `OAuth` authorization header, which Goodreads wants as form
/// data: the first six bytes (`OAuth `) are dropped, the rest is split at each `", "`, and
/// each entry gives the text before its first `=` and the text after it (up to the next
/// `=`) without the surrounding quotes.
pub fn oauth_header_string_to_form_data(oauth_header: &str) -> (form_data: Vec<(String, String)>)
    requires
        oauth_header_well_formed(oauth_header@),
    ensures
        pairs_view(form_data@) == oauth_header_pairs(oauth_header@),
{
    let (_, rest) = oauth_header.split_at(6);
    proof {
        encode_utf8_decode_utf8(rest@);
    }
    let body = chars_of(rest);
    assert(body@ == header_body(oauth_header@));
    let entry_sep = vec![',', ' '];
    assert(entry_sep@ =~= entry_separator());
    let entries = split_chars(&body, &entry_sep);
    let ghost entries_view = vecs_view(entries@);
    assert(entries_view == header_entries(oauth_header@));
    let mut form_data: Vec<(String, String)> = Vec::new();
    let mut i: usize = 0;
    while i < entries.len()
        invariant
            i <= entries.len(),
            entries_view == vecs_view(entries@),
            entries_view == header_entries(oauth_header@),
            oauth_header_well_formed(oauth_header@),
            pairs_view(form_data@) == entries_view.take(i as int).map_values(
                |e: Seq<char>| entry_pair(e),
            ),
        decreases entries.len() - i,
    {
        assert(entry_ok(entries_view[i as int]));
        assert(entries_view[i as int] == entries@[i as int]@);
        let eq_sep = vec!['='];
        assert(eq_sep@ =~= seq!['=']);
        let tokens = split_chars(&entries[i], &eq_sep);
        assert(tokens@.len() >= 2);
        assert(vecs_view(tokens@)[0] == tokens@[0]@);
        assert(vecs_view(tokens@)[1] == tokens@[1]@);
        let key = string_of(&tokens[0]);
        let quoted = &tokens[1];
        let value = sub_chars(quoted, 1, quoted.len() - 1);
        let ghost before = pairs_view(form_data@);
        form_data.push((key, string_of(&value)));
        assert(pairs_view(form_data@) =~= before.push((key@, value@)));
        i = i + 1;
        assert(entries_view.take(i as int).map_values(|e: Seq<char>| entry_pair(e))
            =~= entries_view.take(i - 1).map_values(|e: Seq<char>| entry_pair(e)).push(
            entry_pair(entries_view[i - 1]),
        ));
    }
    assert(entries_view.take(entries.len() as int) =~= entries_view);
    form_data
}

/// The pairs of an `OAuth` authorization header as a query string: `key=value` for each
/// pair, in the header's order, joined with `&`.
pub fn oauth_header_string_into_query_string(oauth_header: &str) -> (query: String)
    requires
        oauth_header_well_formed(oauth_header@),
    ensures
        query@ == query_string(oauth_header_pairs(oauth_header@)),
{
    let pairs = oauth_header_string_to_form_data(oauth_header);
    let ghost pv = pairs_view(pairs@);
    let ghost items = pv.map_values(|p: (Seq<char>, Seq<char>)| p.0 + seq!['='] + p.1);
    let mut cleaned: Vec<String> = Vec::new();
    let mut i: usize = 0;
    while i < pairs.len()
        invariant
            i <= pairs.len(),
            pv == pairs_view(pairs@),
            items == pv.map_values(|p: (Seq<char>, Seq<char>)| p.0 + seq!['='] + p.1),
            strings_view(cleaned@) == items.take(i as int),
        decreases pairs.len() - i,
    {
        let mut item = String::new();
        item.append(pairs[i].0.as_str());
        push_char(&mut item, '=');
        item.append(pairs[i].1.as_str());
        let ghost before = strings_view(cleaned@);
        assert(item@ =~= items[i as int]);
        cleaned.push(item);
        assert(strings_view(cleaned@) =~= before.push(item@));
        i = i + 1;
        assert(strings_view(cleaned@) =~= items.take(i as int));
    }
    assert(items.take(pairs.len() as int) =~= items);
    proof {
        reveal_strlit("&");
        assert("&"@ =~= seq!['&']);
    }
    join_strings(&cleaned, "&")
}

// ---------------------------------------------------------------------------
// Signing requests with `oauth1`
// ---------------------------------------------------------------------------

/// The ASCII characters that percent-encoding leaves as they are: letters, digits and
/// `-`, `.`, `_`, `~` (RFC 3986, section 2.3).
pub open spec fn unreserved_byte(b: u8) -> bool {
    ||| 0x41 <= b && b <= 0x5a
    ||| 0x61 <= b && b <= 0x7a
    ||| 0x30 <= b && b <= 0x39
    ||| b == 0x2d
    ||| b == 0x2e
    ||| b == 0x5f
    ||| b == 0x7e
}

/// The upper-case hexadecimal digit for `d`, which is below sixteen.
pub open spec fn hex_digit(d: u8) -> char {
    if d < 10 {
        (('0' as u8) + d) as char
    } else {
        (('A' as u8) + d - 10) as char
    }
}

/// The bytes `bytes` percent-encoded: each unreserved byte as its character, each other
/// byte as `%` and two upper-case hexadecimal digits.
pub open spec fn percent_encode_bytes(bytes: Seq<u8>) -> Seq<char>
    decreases bytes.len(),
{
    if bytes.len() == 0 {
        Seq::empty()
    } else {
        let b = bytes[0];
        let head = if unreserved_byte(b) {
            seq![b as char]
        } else {
            seq!['%', hex_digit(b / 16), hex_digit(b % 16)]
        };
        head + percent_encode_bytes(bytes.drop_first())
    }
}

/// The UTF-8 bytes of `s`, percent-encoded.
pub open spec fn percent_encode(s: Seq<char>) -> Seq<char> {
    percent_encode_bytes(encode_utf8(s))
}

/// `a` comes before `b`, or is `b`, in the order of `String`: character by character, a
/// prefix first.
pub open spec fn lex_le(a: Seq<char>, b: Seq<char>) -> bool
    decreases a.len(),
{
    if a.len() == 0 {
        true
    } else if b.len() == 0 {
        false
    } else if a[0] != b[0] {
        (a[0] as u32) < (b[0] as u32)
    } else {
        lex_le(a.drop_first(), b.drop_first())
    }
}

/// The texts are in ascending order.
pub open spec fn sorted_texts(s: Seq<Seq<char>>) -> bool {
    forall|i: int, j: int| 0 <= i < j < s.len() ==> lex_le(#[trigger] s[i], #[trigger] s[j])
}

/// `entries` holds the texts `texts`, each as often, in ascending order.
pub open spec fn sorted_arrangement(entries: Seq<Seq<char>>, texts: Seq<Seq<char>>) -> bool {
    &&& entries.to_multiset() == texts.to_multiset()
    &&& sorted_texts(entries)
}

/// The name begins with `oauth_`.
pub open spec fn starts_with_oauth(name: Seq<char>) -> bool {
    name.len() >= 6 && name.subrange(0, 6) == "oauth_"@
}

/// An entry of the query that is signed: `name=value`, both percent-encoded.
pub open spec fn query_entry(p: (Seq<char>, Seq<char>)) -> Seq<char> {
    percent_encode(p.0) + seq!['='] + percent_encode(p.1)
}

/// The signature base string of OAuth 1.0: the method, the URL and the query, each
/// percent-encoded, joined with `&`.
pub open spec fn signature_base(method: Seq<char>, uri: Seq<char>, query: Seq<char>) -> Seq<char> {
    percent_encode(method) + seq!['&'] + percent_encode(uri) + seq!['&'] + percent_encode(query)
}

/// The signing key of OAuth 1.0: the consumer secret and the token secret, each
/// percent-encoded, joined with `&`.
pub open spec fn signing_key(consumer_secret: Seq<char>, token_secret: Seq<char>) -> Seq<char> {
    percent_encode(consumer_secret) + seq!['&'] + percent_encode(token_secret)
}

/// The OAuth 1.0 signature of the base string `base` under the key `key`: HMAC-SHA1 of
/// the UTF-8 bytes of `base`, keyed with the UTF-8 bytes of `key`, in standard base64.
pub uninterp spec fn oauth_signature(base: Seq<char>, key: Seq<char>) -> Seq<char>;

/// `params` with the parameter `(name, value)` put in as a map's `insert` puts it: a
/// parameter of that name that is there already is replaced.
pub open spec fn put_param(
    params: Seq<(Seq<char>, Seq<char>)>,
    name: Seq<char>,
    value: Seq<char>,
) -> Seq<(Seq<char>, Seq<char>)> {
    params.filter(|p: (Seq<char>, Seq<char>)| p.0 != name).push((name, value))
}

/// The pairs of an `Authorization` header: the parameters whose names begin with
/// `oauth_`, each value percent-encoded.
pub open spec fn header_params(params: Seq<(Seq<char>, Seq<char>)>) -> Seq<(Seq<char>, Seq<char>)> {
    params.filter(|p: (Seq<char>, Seq<char>)| starts_with_oauth(p.0)).map_values(
        |p: (Seq<char>, Seq<char>)| (p.0, percent_encode(p.1)),
    )
}

/// `h` is the `Authorization` header that holds `params` signed with `signature` over the
/// query made of `entries`: `entries` are the [`query_entry`] of each parameter in
/// ascending order; the parameter `oauth_signature` is put in with the value `signature`;
/// and `h` is `OAuth ` followed by the entries `name="value"` of the [`header_params`],
/// in ascending order (the order of `pairs`), joined with `", "`.
pub open spec fn signed_pairs(
    h: Seq<char>,
    params: Seq<(Seq<char>, Seq<char>)>,
    entries: Seq<Seq<char>>,
    pairs: Seq<(Seq<char>, Seq<char>)>,
    signature: Seq<char>,
) -> bool {
    &&& sorted_arrangement(entries, params.map_values(|p: (Seq<char>, Seq<char>)| query_entry(p)))
    &&& pairs.to_multiset() == header_params(
        put_param(params, "oauth_signature"@, signature),
    ).to_multiset()
    &&& sorted_texts(pairs.map_values(|p: (Seq<char>, Seq<char>)| header_entry(p)))
    &&& h == oauth_header_text(pairs)
}

/// `h` is the `Authorization` header of a `method` request of `uri` with the parameters
/// `params`, signed with `consumer_secret` and `token_secret`: the query that is signed is
/// the [`query_entry`] of each parameter, in ascending order, joined with `&`; the
/// parameter `oauth_signature` is then put in, with the [`oauth_signature`] of the
/// [`signature_base`] under the [`signing_key`]; and the header is `OAuth ` followed by
/// the entries `name="value"` of the [`header_params`], in ascending order, joined with
/// `", "`.
pub open spec fn signed_header(
    h: Seq<char>,
    method: Seq<char>,
    uri: Seq<char>,
    consumer_secret: Seq<char>,
    token_secret: Seq<char>,
    params: Seq<(Seq<char>, Seq<char>)>,
) -> bool {
    exists|entries: Seq<Seq<char>>, pairs: Seq<(Seq<char>, Seq<char>)>|
        #[trigger] signed_pairs(
            h,
            params,
            entries,
            pairs,
            oauth_signature(
                signature_base(method, uri, join(entries, seq!['&'])),
                signing_key(consumer_secret, token_secret),
            ),
        )
}

/// An ASCII letter or digit.
pub open spec fn ascii_alphanumeric(c: char) -> bool {
    ||| 'a' <= c && c <= 'z'
    ||| 'A' <= c && c <= 'Z'
    ||| '0' <= c && c <= '9'
}

/// A nonce as the OAuth signers draw it: 32 ASCII letters and digits.
pub open spec fn nonce_ok(nonce: Seq<char>) -> bool {
    &&& nonce.len() == 32
    &&& forall|i: int| 0 <= i < nonce.len() ==> ascii_alphanumeric(#[trigger] nonce[i])
}

/// The decimal form of `t` as `i64`'s `Display` writes it: `-` before a negative number,
/// then the digits of its magnitude without leading zeros.
pub open spec fn signed_decimal(t: int) -> Seq<char> {
    if t < 0 {
        seq!['-'] + decimal((-t) as nat)
    } else {
        decimal(t as nat)
    }
}

/// A timestamp as the OAuth signers write it: the decimal form of an `i64` (the seconds
/// since the Unix epoch that the clock gave).
pub open spec fn timestamp_ok(timestamp: Seq<char>) -> bool {
    exists|t: int| i64::MIN <= t <= i64::MAX && #[trigger] signed_decimal(t) == timestamp
}

/// The parameters that an OAuth 1.0 signer gives every request: the consumer key, the
/// nonce, the signature method `HMAC-SHA1`, the timestamp, the version `1.0` and, when
/// there is a token, the token key.
pub open spec fn protocol_params(
    consumer_key: Seq<char>,
    nonce: Seq<char>,
    timestamp: Seq<char>,
    token_key: Option<Seq<char>>,
) -> Seq<(Seq<char>, Seq<char>)> {
    let fixed = seq![
        ("oauth_consumer_key"@, consumer_key),
        ("oauth_nonce"@, nonce),
        ("oauth_signature_method"@, "HMAC-SHA1"@),
        ("oauth_timestamp"@, timestamp),
        ("oauth_version"@, "1.0"@),
    ];
    match token_key {
        Some(k) => fixed.push(("oauth_token"@, k)),
        None => fixed,
    }
}

/// The key of the token, when there is one.
pub open spec fn token_key_of(token: Option<(Seq<char>, Seq<char>)>) -> Option<Seq<char>> {
    match token {
        Some(t) => Some(t.0),
        None => None,
    }
}

/// The secret of the token, or the empty text when there is none.
pub open spec fn token_secret_of(token: Option<(Seq<char>, Seq<char>)>) -> Seq<char> {
    match token {
        Some(t) => t.1,
        None => Seq::empty(),
    }
}

/// `h` is a header that `oauth1::authorize` writes for a `method` request of `uri` by the
/// consumer `(consumer_key, consumer_secret)`, with the token `(key, secret)` when there
/// is one: for a nonce ([`nonce_ok`]) and a timestamp ([`timestamp_ok`]), the [`protocol_params`] signed as
/// [`signed_header`] says, with the token secret (empty without a token).
pub open spec fn oauth1_signed_header(
    h: Seq<char>,
    method: Seq<char>,
    uri: Seq<char>,
    consumer_key: Seq<char>,
    consumer_secret: Seq<char>,
    token: Option<(Seq<char>, Seq<char>)>,
) -> bool {
    exists|nonce: Seq<char>, timestamp: Seq<char>|
        #![trigger protocol_params(consumer_key, nonce, timestamp, token_key_of(token))]
        {
            &&& nonce_ok(nonce)
                    &&& timestamp_ok(timestamp)
            &&& signed_header(
                h,
                method,
                uri,
                consumer_secret,
                token_secret_of(token),
                protocol_params(consumer_key, nonce, timestamp, token_key_of(token)),
            )
        }
}

/// Calls `oauth1::authorize(method, uri, consumer, token, None)`, the `Authorization`
/// header of an OAuth 1.0 request signed with HMAC-SHA1.
/// Claimed of it, from its source: for some nonce and timestamp, the header holds the
/// [`protocol_params`] of the consumer key and the token key (when a token is given)
/// signed as [`signed_pairs`] says, the signature being [`oauth_signature`] of the
/// [`signature_base`] of `method`, `uri` and the signed query under the [`signing_key`]
/// of the consumer secret and the token secret (empty without a token). The nonce is
/// drawn at random and the timestamp read from the clock, so only their forms are
/// stated (32 ASCII letters and digits; the decimal form of an `i64`), and of the
/// signature only what it is computed from.
#[verifier::external_body]
fn oauth1_authorize(
    method: &str,
    uri: &str,
    consumer_key: &str,
    consumer_secret: &str,
    token: Option<(&str, &str)>,
) -> (header: String)
    ensures
        ({
            let token_key = match token {
                Some(t) => Some(t.0@),
                None => None,
            };
            let token_secret = match token {
                Some(t) => t.1@,
                None => Seq::empty(),
            };
            exists|
                nonce: Seq<char>,
                timestamp: Seq<char>,
                entries: Seq<Seq<char>>,
                pairs: Seq<(Seq<char>, Seq<char>)>,
            |
                #![trigger protocol_params(consumer_key@, nonce, timestamp, token_key), oauth_header_text(pairs), join(entries, seq!['&'])]
                {
                    &&& nonce_ok(nonce)
                    &&& timestamp_ok(timestamp)
                    &&& signed_pairs(
                        header@,
                        protocol_params(consumer_key@, nonce, timestamp, token_key),
                        entries,
                        pairs,
                        oauth_signature(
                            signature_base(method@, uri@, join(entries, seq!['&'])),
                            signing_key(consumer_secret@, token_secret),
                        ),
                    )
                }
        }),
{
    let consumer = oauth1::Token::new(consumer_key, consumer_secret);
    let token = match token {
        Some((key, secret)) => Some(oauth1::Token::new(key, secret)),
        None => None,
    };
    oauth1::authorize(method, uri, &consumer, token.as_ref(), None)
}

/// The signed `Authorization` header for a GET request of a request token from
/// `request_token_url`, made with the developer key and secret and no token.
pub fn request_token_authorization(
    consumer_key: &str,
    consumer_secret: &str,
    request_token_url: &str,
) -> (header: String)
    ensures
        oauth1_signed_header(
            header@,
            "GET"@,
            request_token_url@,
            consumer_key@,
            consumer_secret@,
            None,
        ),
{
    oauth1_authorize("GET", request_token_url, consumer_key, consumer_secret, None)
}

/// The URL at which the access token is requested: `token_url`, `?` and the query string
/// of the `Authorization` header signed for a GET of `token_url` with the developer key
/// and secret and the request token and its secret.
pub fn access_token_request_url(
    token_url: &str,
    consumer_key: &str,
    consumer_secret: &str,
    request_token: &str,
    request_token_secret: &str,
) -> (url: String)
    ensures
        exists|h: Seq<char>|
            #![trigger oauth_header_pairs(h)]
            {
                &&& oauth1_signed_header(
                    h,
                    "GET"@,
                    token_url@,
                    consumer_key@,
                    consumer_secret@,
                    Some((request_token@, request_token_secret@)),
                )
                &&& oauth_header_well_formed(h)
                &&& url@ == token_url@ + seq!['?'] + query_string(oauth_header_pairs(h))
            },
{
    let header = oauth1_authorize(
        "GET",
        token_url,
        consumer_key,
        consumer_secret,
        Some((request_token, request_token_secret)),
    );
    proof {
        let token_key = Some(request_token@);
        let token_secret = request_token_secret@;
        let (nonce, timestamp, entries, pairs) = choose|
            nonce: Seq<char>,
            timestamp: Seq<char>,
            entries: Seq<Seq<char>>,
            pairs: Seq<(Seq<char>, Seq<char>)>,
        |
            {
                &&& nonce_ok(nonce)
                    &&& timestamp_ok(timestamp)
                &&& signed_pairs(
                    header@,
                    protocol_params(consumer_key@, nonce, timestamp, token_key),
                    entries,
                    pairs,
                    oauth_signature(
                        signature_base("GET"@, token_url@, join(entries, seq!['&'])),
                        signing_key(consumer_secret@, token_secret),
                    ),
                )
            };
        let params = protocol_params(consumer_key@, nonce, timestamp, token_key);
        lemma_protocol_names(consumer_key@, nonce, timestamp, token_key);
        lemma_signed_header_readable(
            header@,
            params,
            entries,
            pairs,
            oauth_signature(
                signature_base("GET"@, token_url@, join(entries, seq!['&'])),
                signing_key(consumer_secret@, token_secret),
            ),
        );
        assert(token_key_of(Some((request_token@, request_token_secret@))) == token_key);
        assert(token_secret_of(Some((request_token@, request_token_secret@))) == token_secret);
    }
    let query = oauth_header_string_into_query_string(&header);
    let mut url = String::from_str(token_url);
    push_char(&mut url, '?');
    url.append(query.as_str());
    url
}

// ---------------------------------------------------------------------------
// Token responses
// ---------------------------------------------------------------------------

/// Goodreads' answer to a token request: a token and its secret.
pub struct OAuthAccessToken {
    pub token: String,
    pub token_secret: String,
}

/// The name/value pairs that `form_urlencoded::parse` reads from `input`.
pub uninterp spec fn form_urlencoded_pairs(input: Seq<char>) -> Seq<(Seq<char>, Seq<char>)>;

/// Calls `url::form_urlencoded::parse` on the bytes of `input` and collects the decoded
/// name/value pairs, in order. Claimed: the pairs depend on `input` alone.
#[verifier::external_body]
fn parse_form_urlencoded(input: &str) -> (pairs: Vec<(String, String)>)
    ensures
        pairs_view(pairs@) == form_urlencoded_pairs(input@),
{
    url::form_urlencoded::parse(input.as_bytes()).into_owned().collect()
}

/// The value of the last pair named `key`, as a map built from `pairs` in order holds it.
pub open spec fn lookup_last(pairs: Seq<(Seq<char>, Seq<char>)>, key: Seq<char>) -> Option<Seq<char>>
    decreases pairs.len(),
{
    if pairs.len() == 0 {
        None
    } else if pairs.last().0 == key {
        Some(pairs.last().1)
    } else {
        lookup_last(pairs.drop_last(), key)
    }
}

/// The value of the last pair named `key` in `pairs`.
pub fn lookup_param(pairs: &Vec<(String, String)>, key: &str) -> (r: Option<String>)
    ensures
        match r {
            Some(v) => lookup_last(pairs_view(pairs@), key@) == Some(v@),
            None => lookup_last(pairs_view(pairs@), key@) is None,
        },
{
    let ghost pv = pairs_view(pairs@);
    let key_chars = chars_of(key);
    let mut found: Option<String> = None;
    let mut i: usize = 0;
    while i < pairs.len()
        invariant
            i <= pairs.len(),
            pv == pairs_view(pairs@),
            key_chars@ == key@,
            match found {
                Some(v) => lookup_last(pv.take(i as int), key@) == Some(v@),
                None => lookup_last(pv.take(i as int), key@) is None,
            },
        decreases pairs.len() - i,
    {
        let name = chars_of(pairs[i].0.as_str());
        assert(pv.take(i + 1).drop_last() =~= pv.take(i as int));
        assert(pv.take(i + 1).last() == pv[i as int]);
        if chars_equal(&name, &key_chars) {
            found = Some(pairs[i].1.clone());
        }
        i = i + 1;
    }
    assert(pv.take(pairs.len() as int) =~= pv);
    found
}

/// The token and token secret in a token response `body`: the values of its last
/// `oauth_token` and `oauth_token_secret` parameters, or `None` when one is missing.
pub fn token_from_response(body: &str) -> (r: Option<OAuthAccessToken>)
    ensures
        match r {
            Some(t) => lookup_last(form_urlencoded_pairs(body@), "oauth_token"@) == Some(t.token@)
                && lookup_last(form_urlencoded_pairs(body@), "oauth_token_secret"@) == Some(
                t.token_secret@,
            ),
            None => lookup_last(form_urlencoded_pairs(body@), "oauth_token"@) is None
                || lookup_last(form_urlencoded_pairs(body@), "oauth_token_secret"@) is None,
        },
{
    let params = parse_form_urlencoded(body);
    let token = lookup_param(&params, "oauth_token");
    let secret = lookup_param(&params, "oauth_token_secret");
    match (token, secret) {
        (Some(token), Some(token_secret)) => Some(OAuthAccessToken { token, token_secret }),
        _ => None,
    }
}

/// The page where the user authorizes the request token: `auth_url?oauth_token=<token>`.
pub fn authorize_url(auth_url: &str, request_token: &str) -> (url: String)
    ensures
        url@ == auth_url@ + "?oauth_token="@ + request_token@,
{
    let mut url = String::from_str(auth_url);
    url.append("?oauth_token=");
    url.append(request_token);
    url
}

/// The user confirmed the authorization: the answer is `y`, leading and trailing
/// whitespace aside.
pub fn is_authorization_confirmed(answer: &str) -> (confirmed: bool)
    ensures
        confirmed == (trim(answer@) == seq!['y']),
{
    let trimmed = trim_chars(&chars_of(answer));
    let yes = vec!['y'];
    assert(yes@ =~= seq!['y']);
    chars_equal(&trimmed, &yes)
}

// ---------------------------------------------------------------------------
// Headers written by an OAuth signer read back to their pairs
// ---------------------------------------------------------------------------

/// A character that an `OAuth` header key or percent-encoded value may hold: an ASCII
/// letter or digit, or one of `-`, `.`, `_`, `~` and `%`.
pub open spec fn oauth_token_char(c: char) -> bool {
    ||| 'a' <= c && c <= 'z'
    ||| 'A' <= c && c <= 'Z'
    ||| '0' <= c && c <= '9'
    ||| c == '-'
    ||| c == '.'
    ||| c == '_'
    ||| c == '~'
    ||| c == '%'
}

/// Every character of `s` may stand in an `OAuth` header key or value.
pub open spec fn oauth_token_text(s: Seq<char>) -> bool {
    forall|i: int| 0 <= i < s.len() ==> oauth_token_char(#[trigger] s[i])
}

/// Text that may stand as a key or a value in an `OAuth` header that is read back: it
/// holds no `=` and no `", "`.
pub open spec fn header_text_ok(s: Seq<char>) -> bool {
    &&& lacks_char(s, '=')
    &&& forall|j: int| !(#[trigger] occurs_at(s, entry_separator(), j))
}

/// Both the key and the value of `p` may stand in an `OAuth` header that is read back.
pub open spec fn header_pair_ok(p: (Seq<char>, Seq<char>)) -> bool {
    header_text_ok(p.0) && header_text_ok(p.1)
}

/// The header entry `key="value"`.
pub open spec fn header_entry(p: (Seq<char>, Seq<char>)) -> Seq<char> {
    p.0 + seq!['=', '"'] + p.1 + seq!['"']
}

/// The prefix of an `OAuth` header.
pub open spec fn oauth_prefix() -> Seq<char> {
    seq!['O', 'A', 'u', 't', 'h', ' ']
}

/// The `OAuth` header that holds `pairs`: `OAuth ` and then `key="value"` for each pair,
/// joined with `", "`.
pub open spec fn oauth_header_text(pairs: Seq<(Seq<char>, Seq<char>)>) -> Seq<char> {
    oauth_prefix() + join(
        pairs.map_values(|p: (Seq<char>, Seq<char>)| header_entry(p)),
        entry_separator(),
    )
}

/// The UTF-8 encoding of two sequences one after the other.
proof fn lemma_encode_utf8_concat(a: Seq<char>, b: Seq<char>)
    ensures
        encode_utf8(a + b) == encode_utf8(a) + encode_utf8(b),
    decreases a.len(),
{
    if a.len() == 0 {
        assert(a + b =~= b);
        assert(encode_utf8(a) + encode_utf8(b) =~= encode_utf8(b));
    } else {
        lemma_encode_utf8_concat(a.drop_first(), b);
        assert((a + b).drop_first() =~= a.drop_first() + b);
        assert((a + b)[0] == a[0]);
        assert(encode_utf8(a + b) =~= encode_utf8(a) + encode_utf8(b));
    }
}

/// After an ASCII prefix, the encoding of a sequence has a character boundary.
proof fn lemma_ascii_prefix_boundary(p: Seq<char>, rest: Seq<char>)
    requires
        is_ascii_chars(p),
    ensures
        is_char_boundary(encode_utf8(p + rest), p.len() as int),
    decreases p.len(),
{
    encode_utf8_valid_utf8(p + rest);
    if p.len() > 0 {
        let c = p + rest;
        let bytes = encode_utf8(c);
        encode_utf8_valid_utf8(c);
        encode_utf8_first_scalar(c);
        assert(c[0] == p[0]);
        assert(has_width_1_encoding(c[0] as u32));
        assert(encode_scalar(c[0] as u32).len() == 1);
        assert(length_of_first_scalar(bytes) == 1);
        lemma_encode_utf8_concat(p, rest);
        is_ascii_chars_encode_utf8(p);
        assert(bytes.len() >= p.len());
        assert(pop_first_scalar(bytes) =~= encode_utf8(c.drop_first()));
        assert(c.drop_first() =~= p.drop_first() + rest);
        assert(is_ascii_chars(p.drop_first())) by {
            assert forall|i: int| 0 <= i < p.drop_first().len() implies '\0' <= #[trigger] p.drop_first()[i] <= '\u{7f}' by {
                assert(p.drop_first()[i] == p[i + 1]);
            }
        }
        lemma_ascii_prefix_boundary(p.drop_first(), rest);
        assert(is_char_boundary(bytes, p.len() as int) == is_char_boundary(
            pop_first_scalar(bytes),
            p.len() - 1,
        ));
    }
}

/// Text made of [`oauth_token_char`]s may stand in an `OAuth` header.
proof fn lemma_token_text_header_ok(s: Seq<char>)
    requires
        oauth_token_text(s),
    ensures
        header_text_ok(s),
{
    assert forall|i: int| 0 <= i < s.len() implies #[trigger] s[i] != '=' by {
        assert(oauth_token_char(s[i]));
    }
    assert forall|j: int| !(#[trigger] occurs_at(s, entry_separator(), j)) by {
        if occurs_at(s, entry_separator(), j) {
            assert(s.subrange(j, j + 2)[0] == s[j]);
            assert(oauth_token_char(s[j]));
        }
    }
}

/// An entry `key="value"` holds `", "` nowhere, not even where the separator follows it.
proof fn lemma_entry_sep_free(p: (Seq<char>, Seq<char>))
    requires
        header_pair_ok(p),
    ensures
        sep_free(header_entry(p), entry_separator()),
{
    let k = p.0;
    let v = p.1;
    let sep = entry_separator();
    let e = header_entry(p);
    let t = e + sep;
    assert(e.len() == k.len() + v.len() + 3);
    assert forall|j: int| 0 <= j < e.len() implies !(#[trigger] occurs_at(t, sep, j)) by {
        if occurs_at(t, sep, j) {
            assert(t[j] == t.subrange(j, j + 2)[0]);
            assert(t[j + 1] == t.subrange(j, j + 2)[1]);
            assert(t[j] == ',' && t[j + 1] == ' ');
            if j + 1 < k.len() {
                assert(t[j] == k[j] && t[j + 1] == k[j + 1]);
                assert(k.subrange(j, j + 2) =~= sep);
                assert(occurs_at(k, sep, j));
            } else if j + 1 == k.len() {
                assert(t[j + 1] == '=');
            } else if j == k.len() {
                assert(t[j] == '=');
            } else if j == k.len() + 1 {
                assert(t[j] == '"');
            } else if j + 1 < k.len() + 2 + v.len() {
                let m = j - k.len() - 2;
                assert(t[j] == v[m] && t[j + 1] == v[m + 1]);
                assert(v.subrange(m, m + 2) =~= sep);
                assert(occurs_at(v, sep, m));
            } else if j + 1 == k.len() + 2 + v.len() {
                assert(t[j + 1] == '"');
            } else {
                assert(t[j] == '"');
            }
        }
    }
}

/// An entry `key="value"` splits at `=` into the key and the quoted value.
proof fn lemma_entry_reads_back(p: (Seq<char>, Seq<char>))
    requires
        header_pair_ok(p),
    ensures
        entry_ok(header_entry(p)),
        entry_pair(header_entry(p)) == p,
        sep_free(header_entry(p), entry_separator()),
{
    let q = seq!['"'] + p.1 + seq!['"'];
    let parts = seq![p.0, q];
    assert(join(parts, seq!['=']) == join(parts.drop_last(), seq!['=']) + seq!['='] + parts.last());
    assert(parts.drop_last()[0] == p.0);
    assert(join(parts, seq!['=']) =~= header_entry(p));
    assert(lacks_char(q, '=')) by {
        assert forall|i: int| 0 <= i < q.len() implies #[trigger] q[i] != '=' by {
            if 0 < i < q.len() - 1 {
                assert(q[i] == p.1[i - 1]);
            }
        }
    }
    lemma_sep_free_of_lacks(p.0, seq!['=']);
    lemma_sep_free_of_lacks(q, seq!['=']);
    assert(forall|i: int| 0 <= i < parts.len() ==> sep_free(#[trigger] parts[i], seq!['=']));
    lemma_split_join(parts, seq!['=']);
    assert(q.subrange(1, q.len() - 1) =~= p.1);
    lemma_entry_sep_free(p);
}

/// A hexadecimal digit may stand in an `OAuth` header value.
proof fn lemma_hex_digit(d: u8)
    requires
        d < 16,
    ensures
        oauth_token_char(hex_digit(d)),
{
}

/// Percent-encoding writes only characters that may stand in an `OAuth` header value.
proof fn lemma_percent_encode_bytes_token_text(bytes: Seq<u8>)
    ensures
        oauth_token_text(percent_encode_bytes(bytes)),
    decreases bytes.len(),
{
    if bytes.len() > 0 {
        let b = bytes[0];
        lemma_percent_encode_bytes_token_text(bytes.drop_first());
        let head = if unreserved_byte(b) {
            seq![b as char]
        } else {
            seq!['%', hex_digit(b / 16), hex_digit(b % 16)]
        };
        let rest = percent_encode_bytes(bytes.drop_first());
        assert(oauth_token_text(head)) by {
            if unreserved_byte(b) {
                assert(oauth_token_char(b as char));
            } else {
                lemma_hex_digit(b / 16);
                lemma_hex_digit(b % 16);
            }
        }
        assert(percent_encode_bytes(bytes) == head + rest);
        assert forall|i: int| 0 <= i < (head + rest).len() implies oauth_token_char(
            #[trigger] (head + rest)[i],
        ) by {
            if i < head.len() {
                assert((head + rest)[i] == head[i]);
            } else {
                assert((head + rest)[i] == rest[i - head.len()]);
            }
        }
    }
}

/// The names of the protocol parameters may stand in an `OAuth` header.
proof fn lemma_protocol_names(
    consumer_key: Seq<char>,
    nonce: Seq<char>,
    timestamp: Seq<char>,
    token_key: Option<Seq<char>>,
)
    ensures
        forall|i: int|
            0 <= i < protocol_params(consumer_key, nonce, timestamp, token_key).len()
                ==> oauth_token_text(
                #[trigger] protocol_params(consumer_key, nonce, timestamp, token_key)[i].0,
            ),
{
    reveal_strlit("oauth_consumer_key");
    reveal_strlit("oauth_nonce");
    reveal_strlit("oauth_signature_method");
    reveal_strlit("oauth_timestamp");
    reveal_strlit("oauth_version");
    reveal_strlit("oauth_token");
    assert(oauth_token_text("oauth_consumer_key"@));
    assert(oauth_token_text("oauth_nonce"@));
    assert(oauth_token_text("oauth_signature_method"@));
    assert(oauth_token_text("oauth_timestamp"@));
    assert(oauth_token_text("oauth_version"@));
    assert(oauth_token_text("oauth_token"@));
    let params = protocol_params(consumer_key, nonce, timestamp, token_key);
    assert forall|i: int| 0 <= i < params.len() implies oauth_token_text(#[trigger] params[i].0) by {
        if i == 0 {
        } else if i == 1 {
        } else if i == 2 {
        } else if i == 3 {
        } else if i == 4 {
        } else {
        }
    }
}

/// A signed header whose parameter names may stand in an `OAuth` header reads back
/// without a panic: its values are percent-encoded, and `oauth_signature` is such a name.
proof fn lemma_signed_header_readable(
    h: Seq<char>,
    params: Seq<(Seq<char>, Seq<char>)>,
    entries: Seq<Seq<char>>,
    pairs: Seq<(Seq<char>, Seq<char>)>,
    signature: Seq<char>,
)
    requires
        signed_pairs(h, params, entries, pairs, signature),
        forall|i: int| 0 <= i < params.len() ==> oauth_token_text(#[trigger] params[i].0),
    ensures
        oauth_header_well_formed(h),
{
    let all = put_param(params, "oauth_signature"@, signature);
    let kept = params.filter(|p: (Seq<char>, Seq<char>)| p.0 != "oauth_signature"@);
    let f = all.filter(|p: (Seq<char>, Seq<char>)| starts_with_oauth(p.0));
    let hp = header_params(all);
    reveal_strlit("oauth_signature");
    reveal_strlit("oauth_");
    assert(oauth_token_text("oauth_signature"@));
    assert("oauth_signature"@.subrange(0, 6) =~= "oauth_"@);
    let last = all.len() - 1;
    assert(all[last] == ("oauth_signature"@, signature));
    all.lemma_filter_contains(|p: (Seq<char>, Seq<char>)| starts_with_oauth(p.0), last);
    assert(f.len() > 0);
    vstd::seq_lib::to_multiset_len(pairs);
    vstd::seq_lib::to_multiset_len(hp);
    assert(pairs.len() > 0);
    assert forall|i: int| 0 <= i < pairs.len() implies oauth_token_text(#[trigger] pairs[i].0)
        && oauth_token_text(pairs[i].1) by {
        let x = pairs[i];
        assert(pairs.contains(x));
        vstd::seq_lib::to_multiset_contains(pairs, x);
        vstd::seq_lib::to_multiset_contains(hp, x);
        let j = choose|j: int| 0 <= j < hp.len() && hp[j] == x;
        assert(hp[j] == (f[j].0, percent_encode(f[j].1)));
        assert(f.contains(f[j]));
        all.lemma_filter_contains_rev(|p: (Seq<char>, Seq<char>)| starts_with_oauth(p.0), f[j]);
        let m = choose|m: int| 0 <= m < all.len() && all[m] == f[j];
        if m != last {
            assert(all[m] == kept[m]);
            assert(kept.contains(kept[m]));
            params.lemma_filter_contains_rev(
                |p: (Seq<char>, Seq<char>)| p.0 != "oauth_signature"@,
                kept[m],
            );
            let k = choose|k: int| 0 <= k < params.len() && params[k] == kept[m];
            assert(oauth_token_text(params[k].0));
        }
        lemma_percent_encode_bytes_token_text(encode_utf8(f[j].1));
    }
    assert forall|i: int| 0 <= i < pairs.len() implies header_pair_ok(#[trigger] pairs[i]) by {
        lemma_token_text_header_ok(pairs[i].0);
        lemma_token_text_header_ok(pairs[i].1);
    }
    law_oauth_header_reads_back(pairs);
}

/// An `OAuth` header read back gives the pairs it was written from: for one or more pairs
/// whose keys and values hold no `=` and no `", "`, the form data of
/// `OAuth k1="v1", k2="v2", ...` is `[(k1, v1), (k2, v2), ...]`, and reading it does not
/// panic.
pub proof fn law_oauth_header_reads_back(pairs: Seq<(Seq<char>, Seq<char>)>)
    requires
        pairs.len() > 0,
        forall|i: int| 0 <= i < pairs.len() ==> header_pair_ok(#[trigger] pairs[i]),
    ensures
        oauth_header_well_formed(oauth_header_text(pairs)),
        oauth_header_pairs(oauth_header_text(pairs)) == pairs,
{
    let entries = pairs.map_values(|p: (Seq<char>, Seq<char>)| header_entry(p));
    let body = join(entries, entry_separator());
    let h = oauth_header_text(pairs);
    assert forall|i: int| 0 <= i < pairs.len() implies entry_ok(#[trigger] entries[i]) && entry_pair(
        entries[i],
    ) == pairs[i] && sep_free(entries[i], entry_separator()) by {
        lemma_entry_reads_back(pairs[i]);
    }
    assert(forall|i: int|
        0 <= i < entries.len() ==> sep_free(#[trigger] entries[i], entry_separator()));
    lemma_split_join(entries, entry_separator());
    assert(is_ascii_chars(oauth_prefix()));
    lemma_ascii_prefix_boundary(oauth_prefix(), body);
    lemma_encode_utf8_concat(oauth_prefix(), body);
    is_ascii_chars_encode_utf8(oauth_prefix());
    let bytes = encode_utf8(h);
    assert(bytes.subrange(6, bytes.len() as int) =~= encode_utf8(body));
    encode_utf8_decode_utf8(body);
    assert(header_body(h) == body);
    assert(header_entries(h) == entries);
    assert(oauth_header_pairs(h) =~= pairs);
}

} // verus!
