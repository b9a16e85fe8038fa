//! The decisions of the command line: which book the user means and which answers count.
use vstd::prelude::*;

use crate::models::{Book, Shelf};
use crate::text::{chars_of, parse_u32, spec_parse_u32, trim, trim_chars, string_of};

verus! {

/// The smaller of two numbers.
pub open spec fn min_nat(a: nat, b: nat) -> nat {
    if a <= b {
        a
    } else {
        b
    }
}

/// The Levenshtein distance between `a` and `b`: the fewest insertions, deletions and
/// substitutions of single characters that turn one into the other.
pub open spec fn edit_distance(a: Seq<char>, b: Seq<char>) -> nat
    decreases a.len() + b.len(),
{
    if a.len() == 0 {
        b.len()
    } else if b.len() == 0 {
        a.len()
    } else {
        min_nat(
            min_nat(edit_distance(a.drop_last(), b) + 1, edit_distance(a, b.drop_last()) + 1),
            edit_distance(a.drop_last(), b.drop_last()) + if a.last() == b.last() {
                0nat
            } else {
                1nat
            },
        )
    }
}

/// The distance is at most the length of the longer text.
pub proof fn lemma_edit_distance_bound(a: Seq<char>, b: Seq<char>)
    ensures
        edit_distance(a, b) <= if a.len() <= b.len() {
            b.len()
        } else {
            a.len()
        },
    decreases a.len() + b.len(),
{
    if a.len() > 0 && b.len() > 0 {
        lemma_edit_distance_bound(a.drop_last(), b.drop_last());
    }
}

/// A text is no edit away from itself, so a title typed exactly as it stands on the
/// shelf is taken without asking.
pub proof fn law_exact_title_has_distance_zero(a: Seq<char>)
    ensures
        edit_distance(a, a) == 0,
    decreases a.len(),
{
    if a.len() > 0 {
        law_exact_title_has_distance_zero(a.drop_last());
    }
}

/// Two texts are no edit apart only when they are the same text, and they are at least
/// as many edits apart as their lengths differ: a title that differs from the typed one
/// anywhere, however far along, is never taken as an exact match.
pub proof fn law_edit_distance_zero_only_for_equal_texts(a: Seq<char>, b: Seq<char>)
    ensures
        edit_distance(a, b) == 0 <==> a == b,
        edit_distance(a, b) >= a.len() - b.len(),
        edit_distance(a, b) >= b.len() - a.len(),
    decreases a.len() + b.len(),
{
    if a == b {
        law_exact_title_has_distance_zero(a);
    }
    if a.len() == 0 || b.len() == 0 {
        if a.len() == 0 && b.len() == 0 {
            assert(a =~= b);
        }
    } else {
        law_edit_distance_zero_only_for_equal_texts(a.drop_last(), b);
        law_edit_distance_zero_only_for_equal_texts(a, b.drop_last());
        law_edit_distance_zero_only_for_equal_texts(a.drop_last(), b.drop_last());
        if edit_distance(a, b) == 0 {
            assert(a.last() == b.last());
            assert(a.drop_last() == b.drop_last());
            assert(a =~= a.drop_last().push(a.last()));
            assert(b =~= b.drop_last().push(b.last()));
        }
    }
}

/// The edit distance between `a` and `b` (see [`edit_distance`]), row by row.
pub fn edit_distance_exec(a: &Vec<char>, b: &Vec<char>) -> (d: usize)
    ensures
        d == edit_distance(a@, b@),
{
    let mut prev: Vec<usize> = Vec::new();
    prev.push(0);
    let mut j: usize = 0;
    while j < b.len()
        invariant
            j <= b.len(),
            prev@.len() == j + 1,
            forall|k: int| 0 <= k <= j ==> prev@[k] == edit_distance(a@.take(0), b@.take(k)),
        decreases b.len() - j,
    {
        prev.push(j + 1);
        j = j + 1;
    }
    let mut i: usize = 0;
    while i < a.len()
        invariant
            i <= a.len(),
            prev@.len() == b.len() + 1,
            forall|k: int| 0 <= k <= b.len() ==> prev@[k] == edit_distance(a@.take(i as int), b@.take(k)),
        decreases a.len() - i,
    {
        let mut cur: Vec<usize> = Vec::new();
        cur.push(i + 1);
        assert(edit_distance(a@.take(i + 1), b@.take(0)) == i + 1);
        let mut j: usize = 0;
        while j < b.len()
            invariant
                i < a.len(),
                j <= b.len(),
                prev@.len() == b.len() + 1,
                cur@.len() == j + 1,
                forall|k: int| 0 <= k <= b.len() ==> prev@[k] == edit_distance(a@.take(i as int), b@.take(k)),
                forall|k: int| 0 <= k <= j ==> cur@[k] == edit_distance(a@.take(i + 1), b@.take(k)),
            decreases b.len() - j,
        {
            let cost: usize = if a[i] == b[j] {
                0
            } else {
                1
            };
            let deletion = prev[j + 1].saturating_add(1);
            let insertion = cur[j].saturating_add(1);
            let substitution = prev[j].saturating_add(cost);
            let mut v = deletion;
            if insertion < v {
                v = insertion;
            }
            if substitution < v {
                v = substitution;
            }
            proof {
                let x = a@.take(i + 1);
                let y = b@.take(j + 1);
                assert(x.drop_last() =~= a@.take(i as int));
                assert(y.drop_last() =~= b@.take(j as int));
                assert(x.last() == a@[i as int]);
                assert(y.last() == b@[j as int]);
                lemma_edit_distance_bound(x, y);
            }
            cur.push(v);
            j = j + 1;
        }
        prev = cur;
        i = i + 1;
    }
    assert(a@.take(a.len() as int) =~= a@);
    assert(b@.take(b.len() as int) =~= b@);
    prev[b.len()]
}

/// The titles of the books on a shelf.
pub open spec fn shelf_titles(shelf: &Shelf) -> Seq<Seq<char>> {
    shelf.books@.map_values(|b: Book| b.title@)
}

/// The book whose title is closest to `title` in edit distance, the first of them where
/// several are equally close, and that distance; `None` for an empty shelf.
pub fn select_by_edit_distance(shelf: &Shelf, title: &str) -> (r: Option<(usize, usize)>)
    ensures
        r is None <==> shelf.books.len() == 0,
        r matches Some((k, d)) ==> {
            &&& k < shelf.books.len()
            &&& d == edit_distance(shelf.books@[k as int].title@, title@)
            &&& forall|m: int|
                0 <= m < shelf.books.len() ==> d <= edit_distance(
                    #[trigger] shelf.books@[m].title@,
                    title@,
                )
            &&& forall|m: int|
                0 <= m < k ==> d < edit_distance(#[trigger] shelf.books@[m].title@, title@)
        },
{
    let target = chars_of(title);
    let mut best: Option<(usize, usize)> = None;
    let mut i: usize = 0;
    while i < shelf.books.len()
        invariant
            i <= shelf.books.len(),
            target@ == title@,
            i == 0 <==> best is None,
            best matches Some((k, d)) ==> {
                &&& k < i
                &&& d == edit_distance(shelf.books@[k as int].title@, title@)
                &&& forall|m: int|
                    0 <= m < i ==> d <= edit_distance(#[trigger] shelf.books@[m].title@, title@)
                &&& forall|m: int|
                    0 <= m < k ==> d < edit_distance(#[trigger] shelf.books@[m].title@, title@)
            },
        decreases shelf.books.len() - i,
    {
        let d = edit_distance_exec(&chars_of(shelf.books[i].title.as_str()), &target);
        match best {
            Some((_, bd)) => {
                if d < bd {
                    best = Some((i, d));
                }
            },
            None => {
                best = Some((i, d));
            },
        }
        i = i + 1;
    }
    best
}

/// A title typed by the user is taken as the closest book without asking when it is at
/// most one edit away.
pub fn accept_closest_match(distance: usize) -> (accepted: bool)
    ensures
        accepted == (distance < 2),
{
    distance < 2
}

/// The highest page the user may give for `book`: its page count, or 10000 when the
/// count is unknown.
pub fn max_page(book: &Book) -> (max: u32)
    ensures
        max == match book.num_pages {
            Some(n) => n,
            None => 10_000,
        },
{
    match book.num_pages {
        Some(n) => n,
        None => 10_000,
    }
}

/// The book that the user picked from a list numbered from 1: the `choice`-th book, or
/// `None` when there is no such book.
pub fn book_at_choice(shelf: &Shelf, choice: u32) -> (book: Option<&Book>)
    requires
        choice >= 1,
    ensures
        choice as int - 1 < shelf.books.len() ==> book == Some(&shelf.books@[choice - 1]),
        choice as int - 1 >= shelf.books.len() ==> book is None,
{
    let index = (choice - 1) as usize;
    if index < shelf.books.len() {
        Some(&shelf.books[index])
    } else {
        None
    }
}

/// The number that the user typed, when it lies from `min` to `max`: the answer without
/// leading and trailing whitespace, read as a `u32`.
pub fn parse_choice(answer: &str, min: u32, max: u32) -> (choice: Option<u32>)
    ensures
        choice == match spec_parse_u32(trim(answer@)) {
            Some(n) => if min <= n <= max {
                Some(n)
            } else {
                None
            },
            None => None,
        },
{
    let trimmed = string_of(&trim_chars(&chars_of(answer)));
    match parse_u32(trimmed.as_str()) {
        Some(n) => {
            if min <= n && n <= max {
                Some(n)
            } else {
                None
            }
        },
        None => None,
    }
}

/// Where the `finished` command stands: it lists the `currently-reading` shelf, asks
/// which book is finished, removes that book from `currently-reading` and adds it to
/// `read`, and stops at the first step that fails.
pub enum FinishedStep {
    /// List the `currently-reading` shelf.
    ListShelf,
    /// Ask which book of the shelf is finished.
    ChooseBook,
    /// Remove the book from `currently-reading`.
    RemoveFromCurrentlyReading(u32),
    /// Add the book to `read`.
    AddToRead(u32),
    /// The book was moved.
    Succeeded,
    /// A step failed with this error.
    Failed(String),
}

/// The step is one at which the command stops.
pub open spec fn is_final_step(step: FinishedStep) -> bool {
    step is Succeeded || step is Failed
}

/// The step of the `finished` command after `step`, given what it gave back: the id of
/// the chosen book after [`FinishedStep::ChooseBook`] (any number after the other
/// steps), or the error it failed with. An error ends the command, so a book is never
/// added to `read` when it could not be removed from `currently-reading`.
pub fn finished_next(step: &FinishedStep, outcome: Result<u32, String>) -> (next: FinishedStep)
    requires
        !is_final_step(*step),
    ensures
        match outcome {
            Err(e) => next matches FinishedStep::Failed(m) && m@ == e@,
            Ok(id) => match *step {
                FinishedStep::ListShelf => next is ChooseBook,
                FinishedStep::ChooseBook => next == FinishedStep::RemoveFromCurrentlyReading(id),
                FinishedStep::RemoveFromCurrentlyReading(book) => next
                    == FinishedStep::AddToRead(book),
                _ => next is Succeeded,
            },
        },
{
    match outcome {
        Err(e) => FinishedStep::Failed(e),
        Ok(id) => match step {
            FinishedStep::ListShelf => FinishedStep::ChooseBook,
            FinishedStep::ChooseBook => FinishedStep::RemoveFromCurrentlyReading(id),
            FinishedStep::RemoveFromCurrentlyReading(book) => FinishedStep::AddToRead(*book),
            _ => FinishedStep::Succeeded,
        },
    }
}

} // verus!
