use goodreads_sh::commands::{
    accept_closest_match, book_at_choice, edit_distance_exec, finished_next, max_page,
    parse_choice, select_by_edit_distance, FinishedStep,
};
use goodreads_sh::models::{Book, Shelf};
use goodreads_sh::text::chars_of;

fn book(title: &str, pages: Option<u32>) -> Book {
    Book { id: 0, description: String::new(), title: String::from(title), num_pages: pages }
}

fn distance(a: &str, b: &str) -> usize {
    edit_distance_exec(&chars_of(a), &chars_of(b))
}

#[test]
fn edit_distance_counts_single_character_edits() {
    assert_eq!(distance("kitten", "sitting"), 3);
    assert_eq!(distance("", "abc"), 3);
    assert_eq!(distance("abc", ""), 3);
    assert_eq!(distance("dune", "dune"), 0);
    assert_eq!(distance("dune", "dunes"), 1);
    assert_eq!(distance("flaw", "lawn"), 2);
}

#[test]
fn closest_title_is_selected() {
    let shelf = Shelf { books: vec![book("Dune", None), book("Emma", None), book("Dune Messiah", None)] };
    assert_eq!(select_by_edit_distance(&shelf, "Dune"), Some((0, 0)));
    assert_eq!(select_by_edit_distance(&shelf, "Emmy"), Some((1, 1)));
    assert_eq!(select_by_edit_distance(&shelf, "Dune Mesiah"), Some((2, 1)));
    assert_eq!(select_by_edit_distance(&Shelf { books: vec![] }, "Dune"), None);
}

#[test]
fn ties_go_to_the_first_book() {
    let shelf = Shelf { books: vec![book("ab", None), book("ba", None)] };
    assert_eq!(select_by_edit_distance(&shelf, "aa"), Some((0, 1)));
}

#[test]
fn close_matches_are_accepted_without_asking() {
    assert!(accept_closest_match(0));
    assert!(accept_closest_match(1));
    assert!(!accept_closest_match(2));
}

#[test]
fn max_page_defaults_to_ten_thousand() {
    assert_eq!(max_page(&book("A", Some(320))), 320);
    assert_eq!(max_page(&book("A", None)), 10_000);
}

#[test]
fn choices_are_numbered_from_one() {
    let shelf = Shelf { books: vec![book("A", None), book("B", None)] };
    assert_eq!(book_at_choice(&shelf, 1).map(|b| b.title.as_str()), Some("A"));
    assert_eq!(book_at_choice(&shelf, 2).map(|b| b.title.as_str()), Some("B"));
    assert!(book_at_choice(&shelf, 3).is_none());
}

#[test]
fn typed_choices_must_lie_in_range() {
    assert_eq!(parse_choice("2\n", 1, 3), Some(2));
    assert_eq!(parse_choice(" 3 ", 1, 3), Some(3));
    assert_eq!(parse_choice("4", 1, 3), None);
    assert_eq!(parse_choice("0", 1, 3), None);
    assert_eq!(parse_choice("two", 1, 3), None);
}


#[test]
fn finished_moves_the_chosen_book_step_by_step() {
    let step = finished_next(&FinishedStep::ListShelf, Ok(0));
    assert!(matches!(step, FinishedStep::ChooseBook));
    let step = finished_next(&step, Ok(77));
    assert!(matches!(step, FinishedStep::RemoveFromCurrentlyReading(77)));
    let step = finished_next(&step, Ok(0));
    assert!(matches!(step, FinishedStep::AddToRead(77)));
    let step = finished_next(&step, Ok(0));
    assert!(matches!(step, FinishedStep::Succeeded));
}

#[test]
fn finished_stops_at_the_first_error() {
    let step = finished_next(&FinishedStep::RemoveFromCurrentlyReading(5), Err(String::from("denied")));
    match step {
        FinishedStep::Failed(e) => assert_eq!(e, "denied"),
        _ => panic!("a failed removal ends the command"),
    }
    let step = finished_next(&FinishedStep::ListShelf, Err(String::from("offline")));
    assert!(matches!(step, FinishedStep::Failed(ref e) if e == "offline"));
}
