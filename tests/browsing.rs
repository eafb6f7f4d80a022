use space55::browse::{arrange, is_hidden, Enter, FileBrowser, Pick};
use space55::SearchPattern;

fn names(v: &[&str]) -> Vec<String> {
    v.iter().map(|s| s.to_string()).collect()
}

#[test]
fn dot_names_are_hidden() {
    assert!(is_hidden(".git"));
    assert!(!is_hidden("src"));
    assert!(!is_hidden(""));
}

#[test]
fn listing_puts_directories_first() {
    let dirs = names(&[".git", "src"]);
    let files = names(&[".env", "Cargo.toml", "README.md"]);
    assert_eq!(arrange(&dirs, &files, true), names(&["src", "Cargo.toml", "README.md"]));
    assert_eq!(arrange(&dirs, &files, false), names(&[".git", "src", ".env", "Cargo.toml", "README.md"]));
    let dirs = names(&["zeta", "alpha", "beta", "alpha"]);
    let files = names(&["b.txt", "a.txt", "ab", "a"]);
    assert_eq!(
        arrange(&dirs, &files, true),
        names(&["alpha", "beta", "zeta", "a", "a.txt", "ab", "b.txt"])
    );
}

#[test]
fn selection_moves_through_the_listing() {
    let mut b = FileBrowser::new("/p", names(&["a", "b"]));
    assert_eq!(b.cursor(), Pick::Entry(0));
    b.move_down();
    assert_eq!(b.cursor(), Pick::Entry(1));
    b.move_down();
    assert_eq!(b.cursor(), Pick::Entry(1));
    b.move_up();
    b.move_up();
    assert_eq!(b.cursor(), Pick::Up);
    b.move_up();
    assert_eq!(b.cursor(), Pick::Up);
    assert_eq!(b.enter(), Enter::Back);
    b.move_down();
    assert_eq!(b.cursor(), Pick::Entry(0));
    assert_eq!(b.enter(), Enter::Open(String::from("a")));
}

#[test]
fn empty_listing_selects_the_parent_row() {
    let mut b = FileBrowser::new("/empty", Vec::new());
    assert_eq!(b.cursor(), Pick::Up);
    b.move_down();
    assert_eq!(b.cursor(), Pick::Up);
    b.cd("/p", names(&["x"]));
    assert_eq!(b.path(), "/p");
    assert_eq!(b.cursor(), Pick::Entry(0));
}

#[test]
fn select_finds_an_entry_by_name() {
    let mut b = FileBrowser::new("/p", names(&["a", "b", "c"]));
    b.select("c");
    assert_eq!(b.cursor(), Pick::Entry(2));
    b.select("zzz");
    assert_eq!(b.cursor(), Pick::Entry(2));
    assert_eq!(b.entries().len(), 3);
}

#[test]
fn name_search_moves_the_selection() {
    let mut b = FileBrowser::new("/p", names(&["a.rs", "b.txt", "c.rs", "d.md"]));
    b.search_forward();
    assert_eq!(b.cursor(), Pick::Entry(0));
    b.set_pattern(SearchPattern::new(r"\.rs$"));
    b.search_forward();
    assert_eq!(b.cursor(), Pick::Entry(2));
    b.move_down();
    b.search_backwards();
    assert_eq!(b.cursor(), Pick::Entry(0));
    b.set_pattern(SearchPattern::new("zzz"));
    b.search_forward();
    assert_eq!(b.cursor(), Pick::Entry(0));
}
