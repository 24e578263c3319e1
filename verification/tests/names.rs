use save_merge::error::MergeError;
use save_merge::names::{lookup_name, name_list};

#[test]
fn name_list_cuts_at_line_feeds() {
    assert_eq!(name_list("none\nNoah\nMio"), vec!["none", "Noah", "Mio"]);
}

#[test]
fn name_list_of_empty_text_is_one_empty_line() {
    assert_eq!(name_list(""), vec![""]);
}

#[test]
fn name_list_keeps_empty_lines() {
    assert_eq!(name_list("a\n\nb\n"), vec!["a", "", "b", ""]);
}

#[test]
fn name_list_counts_characters_not_bytes() {
    assert_eq!(name_list("é\nü"), vec!["é", "ü"]);
}

#[test]
fn lookup_name_finds_the_entry() {
    let names = name_list("none\nNoah\nMio");
    assert_eq!(lookup_name(&names, 2), Ok("Mio"));
}

#[test]
fn lookup_name_past_the_end() {
    let names = name_list("none\nNoah\nMio");
    assert_eq!(lookup_name(&names, 3), Err(MergeError::OutOfRangeIdentity { identity: 3 }));
}
