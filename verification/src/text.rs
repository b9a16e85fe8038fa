//! Character-level text handling: splitting, joining, trimming and decimal numbers.
use vstd::prelude::*;

verus! {

// ---------------------------------------------------------------------------
// Strings and character vectors
// ---------------------------------------------------------------------------

/// Appends one character to a string.
#[verifier::external_body]
pub(crate) fn push_char(s: &mut String, c: char)
    ensures
        final(s)@ == old(s)@.push(c),
{
    s.push(c);
}

/// The characters of `s`, in order.
pub fn chars_of(s: &str) -> (r: Vec<char>)
    ensures
        r@ == s@,
{
    let mut r: Vec<char> = Vec::new();
    for c in it: s.chars()
        invariant
            r@ == it.seq().take(it.index() as int),
            it.seq() == s@,
    {
        r.push(c);
    }
    r
}

/// The string made of the characters of `v`, in order.
pub fn string_of(v: &Vec<char>) -> (r: String)
    ensures
        r@ == v@,
{
    let mut r = String::new();
    let mut i: usize = 0;
    while i < v.len()
        invariant
            i <= v.len(),
            r@ == v@.take(i as int),
        decreases v.len() - i,
    {
        push_char(&mut r, v[i]);
        i = i + 1;
        assert(r@ =~= v@.take(i as int));
    }
    assert(v@.take(v.len() as int) =~= v@);
    r
}

/// The characters of `v` from index `start` up to, not including, index `end`.
pub fn sub_chars(v: &Vec<char>, start: usize, end: usize) -> (r: Vec<char>)
    requires
        start <= end <= v.len(),
    ensures
        r@ == v@.subrange(start as int, end as int),
{
    let mut r: Vec<char> = Vec::new();
    let mut i: usize = start;
    while i < end
        invariant
            start <= i <= end <= v.len(),
            r@ == v@.subrange(start as int, i as int),
        decreases end - i,
    {
        r.push(v[i]);
        i = i + 1;
        assert(r@ =~= v@.subrange(start as int, i as int));
    }
    r
}

/// Whether `a` and `b` hold the same characters.
pub fn chars_equal(a: &Vec<char>, b: &Vec<char>) -> (r: bool)
    ensures
        r == (a@ == b@),
{
    if a.len() != b.len() {
        return false;
    }
    let mut i: usize = 0;
    while i < a.len()
        invariant
            i <= a.len() == b.len(),
            forall|k: int| 0 <= k < i ==> a@[k] == b@[k],
        decreases a.len() - i,
    {
        if a[i] != b[i] {
            return false;
        }
        i = i + 1;
    }
    assert(a@ =~= b@);
    true
}

// ---------------------------------------------------------------------------
// Splitting and joining
// ---------------------------------------------------------------------------

/// `sep` occurs in `s` at index `i`.
pub open spec fn occurs_at(s: Seq<char>, sep: Seq<char>, i: int) -> bool {
    0 <= i && i + sep.len() <= s.len() && s.subrange(i, i + sep.len()) == sep
}

/// The pieces of `s` between the non-overlapping occurrences of `sep`, taken from the
/// left, where the current piece began at `start` and the search has reached `i`.
pub open spec fn split_from(s: Seq<char>, sep: Seq<char>, start: int, i: int) -> Seq<Seq<char>>
    decreases s.len() - i,
{
    if sep.len() == 0 || i < 0 || i + sep.len() > s.len() {
        seq![s.subrange(start, s.len() as int)]
    } else if occurs_at(s, sep, i) {
        seq![s.subrange(start, i)] + split_from(s, sep, i + sep.len(), i + sep.len())
    } else {
        split_from(s, sep, start, i + 1)
    }
}

/// The pieces of `s` between the occurrences of `sep`, as `str::split` yields them:
/// leftmost non-overlapping occurrences, empty pieces kept.
pub open spec fn split(s: Seq<char>, sep: Seq<char>) -> Seq<Seq<char>> {
    split_from(s, sep, 0, 0)
}

/// The views of a sequence of character vectors.
pub open spec fn vecs_view(v: Seq<Vec<char>>) -> Seq<Seq<char>> {
    v.map_values(|x: Vec<char>| x@)
}

/// The views of a sequence of strings.
pub open spec fn strings_view(v: Seq<String>) -> Seq<Seq<char>> {
    v.map_values(|x: String| x@)
}

/// `items` with `sep` between each two of them, as `[String]::join` builds it.
pub open spec fn join(items: Seq<Seq<char>>, sep: Seq<char>) -> Seq<char>
    decreases items.len(),
{
    if items.len() == 0 {
        Seq::empty()
    } else if items.len() == 1 {
        items[0]
    } else {
        join(items.drop_last(), sep) + sep + items.last()
    }
}

/// No character of `s` is `c`.
pub open spec fn lacks_char(s: Seq<char>, c: char) -> bool {
    forall|i: int| 0 <= i < s.len() ==> #[trigger] s[i] != c
}

/// Splitting goes the same way on a suffix of `s`, with every index moved by `k`.
proof fn lemma_split_from_shift(s: Seq<char>, sep: Seq<char>, k: int, start: int, i: int)
    requires
        0 <= k <= start <= i,
        start <= s.len(),
        sep.len() > 0,
    ensures
        split_from(s, sep, start, i) == split_from(s.skip(k), sep, start - k, i - k),
    decreases s.len() - i,
{
    let t = s.skip(k);
    if i + sep.len() > s.len() {
        assert(s.subrange(start, s.len() as int) =~= t.subrange(start - k, t.len() as int));
    } else {
        assert(s.subrange(i, i + sep.len()) =~= t.subrange(i - k, i - k + sep.len()));
        if occurs_at(s, sep, i) {
            assert(s.subrange(start, i) =~= t.subrange(start - k, i - k));
            lemma_split_from_shift(s, sep, k, i + sep.len(), i + sep.len());
        } else {
            lemma_split_from_shift(s, sep, k, start, i + 1);
        }
    }
}

/// Where `sep` occurs at no index of `s` from `i` up to `m`, the search for `sep` goes
/// from `i` to `m` without finding it.
proof fn lemma_split_from_scan(s: Seq<char>, sep: Seq<char>, start: int, i: int, m: int)
    requires
        0 <= i <= m <= s.len(),
        sep.len() > 0,
        forall|j: int| i <= j < m ==> !occurs_at(s, sep, j),
    ensures
        split_from(s, sep, start, i) == split_from(s, sep, start, m),
    decreases m - i,
{
    if i < m {
        if i + sep.len() <= s.len() {
            assert(!occurs_at(s, sep, i));
            lemma_split_from_scan(s, sep, start, i + 1, m);
        }
    }
}

/// `sep` begins at no index of `a`, not even where `a` is followed by `sep`: an item that
/// a split at `sep` gives back whole.
pub open spec fn sep_free(a: Seq<char>, sep: Seq<char>) -> bool {
    forall|j: int| 0 <= j < a.len() ==> !(#[trigger] occurs_at(a + sep, sep, j))
}

/// A text without the first character of `sep` is free of `sep`.
pub proof fn lemma_sep_free_of_lacks(a: Seq<char>, sep: Seq<char>)
    requires
        sep.len() > 0,
        lacks_char(a, sep[0]),
    ensures
        sep_free(a, sep),
{
    assert forall|j: int| 0 <= j < a.len() implies !occurs_at(a + sep, sep, j) by {
        if occurs_at(a + sep, sep, j) {
            assert((a + sep).subrange(j, j + sep.len())[0] == (a + sep)[j]);
            assert((a + sep)[j] == a[j]);
        }
    }
}

/// Joining at least two items puts the first one, then `sep`, then the rest joined.
pub proof fn lemma_join_front(items: Seq<Seq<char>>, sep: Seq<char>)
    requires
        items.len() >= 2,
    ensures
        join(items, sep) == items[0] + sep + join(items.drop_first(), sep),
    decreases items.len(),
{
    if items.len() > 2 {
        lemma_join_front(items.drop_last(), sep);
        assert(items.drop_last().drop_first() =~= items.drop_first().drop_last());
        assert(items.drop_first().last() == items.last());
        assert(join(items.drop_first(), sep) == join(items.drop_first().drop_last(), sep) + sep
            + items.drop_first().last());
        assert(join(items, sep) == join(items.drop_last(), sep) + sep + items.last());
        assert(items.drop_last()[0] == items[0]);
        assert(join(items, sep) =~= items[0] + sep + join(items.drop_first(), sep));
    } else {
        assert(items.drop_last().len() == 1);
        assert(items.drop_first().len() == 1);
        assert(items.drop_last()[0] == items[0]);
        assert(items.drop_first()[0] == items.last());
        assert(join(items.drop_last(), sep) == items[0]);
        assert(join(items.drop_first(), sep) == items.last());
        assert(join(items, sep) == join(items.drop_last(), sep) + sep + items.last());
    }
}

/// Splitting what was joined gives the items back, when every item is free of the
/// separator.
pub proof fn lemma_split_join(items: Seq<Seq<char>>, sep: Seq<char>)
    requires
        items.len() > 0,
        sep.len() > 0,
        forall|i: int| 0 <= i < items.len() ==> sep_free(#[trigger] items[i], sep),
    ensures
        split(join(items, sep), sep) == items,
    decreases items.len(),
{
    let s = join(items, sep);
    if items.len() == 1 {
        let a = items[0];
        assert(sep_free(a, sep));
        assert forall|j: int| 0 <= j < s.len() implies !occurs_at(s, sep, j) by {
            if occurs_at(s, sep, j) {
                assert(!occurs_at(a + sep, sep, j));
                assert(a.subrange(j, j + sep.len()) =~= (a + sep).subrange(j, j + sep.len()));
            }
        }
        lemma_split_from_scan(s, sep, 0, 0, s.len() as int);
        assert(s.subrange(0, s.len() as int) =~= s);
        assert(split(s, sep) =~= items);
    } else {
        lemma_join_front(items, sep);
        let a = items[0];
        let rest = join(items.drop_first(), sep);
        assert(sep_free(a, sep));
        assert forall|j: int| 0 <= j < a.len() implies !occurs_at(s, sep, j) by {
            if occurs_at(s, sep, j) {
                assert(!occurs_at(a + sep, sep, j));
                assert(s.subrange(j, j + sep.len()) =~= (a + sep).subrange(j, j + sep.len()));
            }
        }
        lemma_split_from_scan(s, sep, 0, 0, a.len() as int);
        assert(s.subrange(a.len() as int, (a.len() + sep.len()) as int) =~= sep);
        assert(s.subrange(0, a.len() as int) =~= a);
        let k: int = (a.len() + sep.len()) as int;
        lemma_split_from_shift(s, sep, k, k, k);
        assert(s.skip(k) =~= rest);
        assert forall|i: int| 0 <= i < items.drop_first().len() implies sep_free(
            #[trigger] items.drop_first()[i],
            sep,
        ) by {
            assert(items.drop_first()[i] == items[i + 1]);
        }
        lemma_split_join(items.drop_first(), sep);
        assert(split(s, sep) =~= seq![a] + items.drop_first());
        assert(seq![a] + items.drop_first() =~= items);
    }
}

/// Whether `sep` occurs in `s` at index `i`.
fn occurs_at_exec(s: &Vec<char>, sep: &Vec<char>, i: usize) -> (r: bool)
    requires
        i <= s.len(),
        sep.len() <= s.len() - i,
    ensures
        r == occurs_at(s@, sep@, i as int),
{
    let mut k: usize = 0;
    while k < sep.len()
        invariant
            k <= sep.len(),
            i + sep.len() <= s.len(),
            forall|m: int| 0 <= m < k ==> s@[i + m] == sep@[m],
        decreases sep.len() - k,
    {
        if s[i + k] != sep[k] {
            assert(s@.subrange(i as int, i + sep.len())[k as int] != sep@[k as int]);
            return false;
        }
        k = k + 1;
    }
    assert(s@.subrange(i as int, i + sep.len()) =~= sep@);
    true
}

/// The pieces of `s` between the occurrences of `sep` (see [`split`]).
pub fn split_chars(s: &Vec<char>, sep: &Vec<char>) -> (r: Vec<Vec<char>>)
    requires
        sep.len() > 0,
    ensures
        vecs_view(r@) == split(s@, sep@),
{
    let mut pieces: Vec<Vec<char>> = Vec::new();
    let mut start: usize = 0;
    let mut i: usize = 0;
    while sep.len() <= s.len() - i
        invariant
            start <= i <= s.len(),
            sep.len() > 0,
            split(s@, sep@) == vecs_view(pieces@) + split_from(s@, sep@, start as int, i as int),
        decreases s.len() + 1 - i,
    {
        let ghost before = vecs_view(pieces@);
        if occurs_at_exec(s, sep, i) {
            let piece = sub_chars(s, start, i);
            pieces.push(piece);
            assert(vecs_view(pieces@) =~= before.push(piece@));
            i = i + sep.len();
            start = i;
            assert(split(s@, sep@) == vecs_view(pieces@) + split_from(s@, sep@, start as int, i as int)) by {
                assert(before.push(piece@) + split_from(s@, sep@, start as int, i as int)
                    =~= before + (seq![piece@] + split_from(s@, sep@, start as int, i as int)));
            }
        } else {
            i = i + 1;
        }
    }
    let ghost before = vecs_view(pieces@);
    let last = sub_chars(s, start, s.len());
    pieces.push(last);
    assert(vecs_view(pieces@) =~= before.push(last@));
    assert(vecs_view(pieces@) =~= before + split_from(s@, sep@, start as int, i as int));
    pieces
}

/// The items of `items` with `sep` between each two of them (see [`join`]).
pub fn join_strings(items: &Vec<String>, sep: &str) -> (r: String)
    ensures
        r@ == join(strings_view(items@), sep@),
{
    let ghost views = strings_view(items@);
    let mut r = String::new();
    let mut i: usize = 0;
    while i < items.len()
        invariant
            i <= items.len(),
            views == strings_view(items@),
            r@ == join(views.take(i as int), sep@),
        decreases items.len() - i,
    {
        if i > 0 {
            r.append(sep);
        }
        r.append(items[i].as_str());
        i = i + 1;
        assert(views.take(i as int).drop_last() =~= views.take(i - 1));
    }
    assert(views.take(items.len() as int) =~= views);
    r
}

// ---------------------------------------------------------------------------
// Whitespace
// ---------------------------------------------------------------------------

/// Unicode `White_Space`, as `char::is_whitespace` decides it.
pub open spec fn is_whitespace(c: char) -> bool {
    let u = c as u32;
    ||| 0x9 <= u && u <= 0xd
    ||| u == 0x20
    ||| u == 0x85
    ||| u == 0xa0
    ||| u == 0x1680
    ||| 0x2000 <= u && u <= 0x200a
    ||| u == 0x2028
    ||| u == 0x2029
    ||| u == 0x202f
    ||| u == 0x205f
    ||| u == 0x3000
}

/// `s` without its leading whitespace.
pub open spec fn trim_start(s: Seq<char>) -> Seq<char>
    decreases s.len(),
{
    if s.len() > 0 && is_whitespace(s[0]) {
        trim_start(s.drop_first())
    } else {
        s
    }
}

/// `s` without its trailing whitespace.
pub open spec fn trim_end(s: Seq<char>) -> Seq<char>
    decreases s.len(),
{
    if s.len() > 0 && is_whitespace(s.last()) {
        trim_end(s.drop_last())
    } else {
        s
    }
}

/// `s` without leading and trailing whitespace, as `str::trim` gives it.
pub open spec fn trim(s: Seq<char>) -> Seq<char> {
    trim_end(trim_start(s))
}

/// Whether `c` is whitespace (see [`is_whitespace`]).
pub fn char_is_whitespace(c: char) -> (r: bool)
    ensures
        r == is_whitespace(c),
{
    let u = c as u32;
    (0x9 <= u && u <= 0xd) || u == 0x20 || u == 0x85 || u == 0xa0 || u == 0x1680 || (0x2000 <= u
        && u <= 0x200a) || u == 0x2028 || u == 0x2029 || u == 0x202f || u == 0x205f || u == 0x3000
}

/// `s` without leading and trailing whitespace.
pub fn trim_chars(s: &Vec<char>) -> (r: Vec<char>)
    ensures
        r@ == trim(s@),
{
    let mut a: usize = 0;
    assert(s@.subrange(0, s.len() as int) =~= s@);
    while a < s.len() && char_is_whitespace(s[a])
        invariant
            a <= s.len(),
            trim_start(s@) == trim_start(s@.subrange(a as int, s.len() as int)),
        decreases s.len() - a,
    {
        assert(s@.subrange(a as int, s.len() as int).drop_first() =~= s@.subrange(
            a + 1,
            s.len() as int,
        ));
        a = a + 1;
    }
    let ghost mid = s@.subrange(a as int, s.len() as int);
    assert(trim_start(s@) == mid);
    let mut b: usize = s.len();
    while b > a && char_is_whitespace(s[b - 1])
        invariant
            a <= b <= s.len(),
            mid == s@.subrange(a as int, s.len() as int),
            trim_end(mid) == trim_end(s@.subrange(a as int, b as int)),
        decreases b,
    {
        assert(s@.subrange(a as int, b as int).drop_last() =~= s@.subrange(a as int, b - 1));
        b = b - 1;
    }
    sub_chars(s, a, b)
}

// ---------------------------------------------------------------------------
// Decimal numbers
// ---------------------------------------------------------------------------

/// `c` is one of the ASCII digits `0` to `9`.
pub open spec fn is_ascii_digit(c: char) -> bool {
    '0' <= c && c <= '9'
}

/// The value of the ASCII digit `c`.
pub open spec fn digit_value(c: char) -> nat {
    ((c as u32) - ('0' as u32)) as nat
}

/// Every character of `s` is an ASCII digit.
pub open spec fn all_ascii_digits(s: Seq<char>) -> bool {
    forall|i: int| 0 <= i < s.len() ==> is_ascii_digit(#[trigger] s[i])
}

/// The value of the ASCII digits `s`, read in base ten.
pub open spec fn digits_value(s: Seq<char>) -> nat
    decreases s.len(),
{
    if s.len() == 0 {
        0
    } else {
        digits_value(s.drop_last()) * 10 + digit_value(s.last())
    }
}

/// `s` without one leading `+`, if it has one.
pub open spec fn unsigned_digits(s: Seq<char>) -> Seq<char> {
    if s.len() > 0 && s[0] == '+' {
        s.drop_first()
    } else {
        s
    }
}

/// What `s.parse::<u32>()` gives: an optional `+` and then one or more ASCII digits whose
/// value fits in a `u32`; nothing else is accepted.
pub open spec fn spec_parse_u32(s: Seq<char>) -> Option<u32> {
    let d = unsigned_digits(s);
    if d.len() > 0 && all_ascii_digits(d) && digits_value(d) <= u32::MAX {
        Some(digits_value(d) as u32)
    } else {
        None
    }
}

/// The ASCII digit for `d`, which is below ten.
pub open spec fn digit_char(d: nat) -> char {
    if d == 0 {
        '0'
    } else if d == 1 {
        '1'
    } else if d == 2 {
        '2'
    } else if d == 3 {
        '3'
    } else if d == 4 {
        '4'
    } else if d == 5 {
        '5'
    } else if d == 6 {
        '6'
    } else if d == 7 {
        '7'
    } else if d == 8 {
        '8'
    } else {
        '9'
    }
}

/// The decimal digits of `n`, without leading zeros, as `n.to_string()` writes them.
pub open spec fn decimal(n: nat) -> Seq<char>
    decreases n,
{
    if n < 10 {
        seq![digit_char(n)]
    } else {
        decimal(n / 10).push(digit_char(n % 10))
    }
}

/// The digit for `d` is an ASCII digit of value `d`.
proof fn lemma_digit_char(d: nat)
    requires
        d < 10,
    ensures
        is_ascii_digit(digit_char(d)),
        digit_value(digit_char(d)) == d,
{
}

/// The digits of a prefix of `s` have at most the value of all of `s`.
proof fn lemma_digits_value_prefix(s: Seq<char>, k: int)
    requires
        0 <= k <= s.len(),
    ensures
        digits_value(s.take(k)) <= digits_value(s),
    decreases s.len(),
{
    if k < s.len() {
        lemma_digits_value_prefix(s.drop_last(), k);
        assert(s.drop_last().take(k) =~= s.take(k));
    } else {
        assert(s.take(k) =~= s);
    }
}

/// The value of the digits of `n`'s decimal form is `n`.
pub proof fn lemma_decimal_digits(n: nat)
    ensures
        decimal(n).len() > 0,
        all_ascii_digits(decimal(n)),
        digits_value(decimal(n)) == n,
        decimal(n)[0] != '+',
    decreases n,
{
    lemma_digit_char(n % 10);
    if n < 10 {
        assert(decimal(n).drop_last() =~= Seq::<char>::empty());
        assert(decimal(n).last() == digit_char(n));
        assert(digits_value(decimal(n)) == digits_value(Seq::<char>::empty()) * 10 + digit_value(
            digit_char(n),
        ));
    } else {
        lemma_decimal_digits(n / 10);
        let d = decimal(n);
        assert(d.drop_last() =~= decimal(n / 10));
        assert(d.last() == digit_char(n % 10));
        assert(n == (n / 10) * 10 + n % 10);
        assert(digits_value(d) == digits_value(decimal(n / 10)) * 10 + digit_value(
            digit_char(n % 10),
        ));
        assert forall|i: int| 0 <= i < d.len() implies is_ascii_digit(#[trigger] d[i]) by {
            if i < d.len() - 1 {
                assert(d[i] == decimal(n / 10)[i]);
            }
        }
    }
}

/// Reading the decimal form of a `u32` gives the number back.
pub proof fn law_decimal_parses_back(n: u32)
    ensures
        spec_parse_u32(decimal(n as nat)) == Some(n),
{
    lemma_decimal_digits(n as nat);
}

/// `v` is the decimal form of `n` as `to_string` writes it: one or more ASCII digits, no
/// leading zero, whose value in base ten is `n`.
pub open spec fn is_decimal_of(v: Seq<char>, n: nat) -> bool {
    &&& v.len() > 0
    &&& all_ascii_digits(v)
    &&& (v.len() > 1 ==> v[0] != '0')
    &&& digits_value(v) == n
}

/// The decimal form of a number of two or more digits begins with a digit other than `0`.
proof fn lemma_decimal_leading_digit(n: nat)
    ensures
        decimal(n).len() > 1 ==> n >= 10,
        n > 0 ==> decimal(n)[0] != '0',
    decreases n,
{
    if n >= 10 {
        lemma_decimal_leading_digit(n / 10);
        lemma_decimal_digits(n / 10);
        assert(decimal(n)[0] == decimal(n / 10)[0]);
    }
}

/// The decimal form of `n` is the canonical way to write `n` in base ten: digits only, no
/// leading zero, value `n`; so a number sent in decimal is the number itself.
pub proof fn law_decimal_is_canonical(n: nat)
    ensures
        is_decimal_of(decimal(n), n),
{
    lemma_decimal_digits(n);
    lemma_decimal_leading_digit(n);
}

/// The number that `s` holds in decimal, as `s.parse::<u32>()` reads it: an optional `+`
/// and then ASCII digits; `None` for anything else and for values above `u32::MAX`.
pub fn parse_u32(s: &str) -> (r: Option<u32>)
    ensures
        r == spec_parse_u32(s@),
{
    let cs = chars_of(s);
    let mut start: usize = 0;
    if cs.len() > 0 && cs[0] == '+' {
        start = 1;
    }
    let ghost d = cs@.subrange(start as int, cs.len() as int);
    assert(d =~= unsigned_digits(s@));
    if start == cs.len() {
        return None;
    }
    let mut value: u64 = 0;
    let mut i: usize = start;
    while i < cs.len()
        invariant
            start <= i <= cs.len(),
            cs@ == s@,
            d == cs@.subrange(start as int, cs.len() as int),
            d == unsigned_digits(s@),
            d.len() > 0,
            all_ascii_digits(cs@.subrange(start as int, i as int)),
            value == digits_value(cs@.subrange(start as int, i as int)),
            value <= u32::MAX,
        decreases cs.len() - i,
    {
        let c = cs[i];
        if !('0' <= c && c <= '9') {
            assert(d[i - start] == c);
            return None;
        }
        let digit = (c as u32 - '0' as u32) as u64;
        value = value * 10 + digit;
        let ghost prefix = cs@.subrange(start as int, i + 1);
        assert(prefix.drop_last() =~= cs@.subrange(start as int, i as int));
        assert(all_ascii_digits(prefix)) by {
            assert forall|k: int| 0 <= k < prefix.len() implies is_ascii_digit(#[trigger] prefix[k]) by {
                if k < prefix.len() - 1 {
                    assert(prefix[k] == cs@.subrange(start as int, i as int)[k]);
                }
            }
        }
        if value > u32::MAX as u64 {
            proof {
                if all_ascii_digits(d) {
                    assert(d.take(i + 1 - start) =~= prefix);
                    lemma_digits_value_prefix(d, i + 1 - start);
                }
            }
            return None;
        }
        i = i + 1;
    }
    Some(value as u32)
}

/// The ASCII digit for `d`, which is below ten.
fn digit_char_exec(d: u32) -> (c: char)
    requires
        d < 10,
    ensures
        c == digit_char(d as nat),
{
    if d == 0 {
        '0'
    } else if d == 1 {
        '1'
    } else if d == 2 {
        '2'
    } else if d == 3 {
        '3'
    } else if d == 4 {
        '4'
    } else if d == 5 {
        '5'
    } else if d == 6 {
        '6'
    } else if d == 7 {
        '7'
    } else if d == 8 {
        '8'
    } else {
        '9'
    }
}

/// The decimal form of `n`, as `n.to_string()` writes it.
pub fn u32_to_decimal(n: u32) -> (r: String)
    ensures
        r@ == decimal(n as nat),
    decreases n,
{
    if n < 10 {
        let mut r = String::new();
        push_char(&mut r, digit_char_exec(n));
        assert(r@ =~= decimal(n as nat));
        r
    } else {
        let mut r = u32_to_decimal(n / 10);
        push_char(&mut r, digit_char_exec(n % 10));
        r
    }
}

} // verus!
