use keynav::binding::Action;
use keynav::notes::{Date, format_date, note_file_name, relative_note_name};
use keynav::sorting::{FileInfo, Sorting, compare_files, name, natural, sort_files};
use keynav::state::{Effect, State, apply, reverse_sort, selection_bottom, selection_down, selection_top, selection_up, sort_by_natural, sort_by_size};
use std::cmp::Ordering;

fn file(n: &str, size: u64, ctime: i128, mtime: i128) -> FileInfo {
    FileInfo {
        path: format!("/notes/{}", n),
        name: n.to_string(),
        is_folder: false,
        ctime,
        mtime,
        size,
    }
}

fn names(s: &State) -> Vec<String> {
    s.file_names()
}

fn sample() -> Vec<FileInfo> {
    vec![
        file("rfc822.txt", 30, 5, 1),
        file("rfc1.txt", 10, 3, 3),
        file("rfc2086.txt", 20, 4, 2),
    ]
}

#[test]
fn name_order_is_by_code_point() {
    assert_eq!(name(&file("b", 0, 0, 0), &file("a", 0, 0, 0)), Ordering::Greater);
    assert_eq!(name(&file("ab", 0, 0, 0), &file("abc", 0, 0, 0)), Ordering::Less);
    assert_eq!(name(&file("Z", 0, 0, 0), &file("a", 0, 0, 0)), Ordering::Less);
    assert_eq!(name(&file("é", 0, 0, 0), &file("z", 0, 0, 0)), Ordering::Greater);
    assert_eq!(name(&file("x", 0, 0, 0), &file("x", 0, 0, 0)), Ordering::Equal);
}

#[test]
fn natural_order_uses_numbers() {
    assert_eq!(natural(&file("rfc822.txt", 0, 0, 0), &file("rfc2086.txt", 0, 0, 0)), Ordering::Less);
    assert_eq!(name(&file("rfc822.txt", 0, 0, 0), &file("rfc2086.txt", 0, 0, 0)), Ordering::Greater);
    assert_eq!(compare_files(&file("a", 1, 9, 0), &file("b", 2, 1, 0), Sorting::Ctime), Ordering::Greater);
}

#[test]
fn sort_files_each_order() {
    let mut fs = sample();
    sort_files(&mut fs, &Sorting::Name);
    let got: Vec<&str> = fs.iter().map(|f| f.name.as_str()).collect();
    assert_eq!(got, vec!["rfc1.txt", "rfc2086.txt", "rfc822.txt"]);
    sort_files(&mut fs, &Sorting::Natural);
    let got: Vec<&str> = fs.iter().map(|f| f.name.as_str()).collect();
    assert_eq!(got, vec!["rfc1.txt", "rfc822.txt", "rfc2086.txt"]);
    sort_files(&mut fs, &Sorting::Size);
    let got: Vec<u64> = fs.iter().map(|f| f.size).collect();
    assert_eq!(got, vec![10, 20, 30]);
    sort_files(&mut fs, &Sorting::Ctime);
    let got: Vec<i128> = fs.iter().map(|f| f.ctime).collect();
    assert_eq!(got, vec![3, 4, 5]);
    sort_files(&mut fs, &Sorting::Mtime);
    let got: Vec<i128> = fs.iter().map(|f| f.mtime).collect();
    assert_eq!(got, vec![1, 2, 3]);
}

#[test]
fn sort_is_stable() {
    let mut fs = vec![file("b", 1, 0, 0), file("a", 1, 0, 0), file("c", 0, 0, 0)];
    sort_files(&mut fs, &Sorting::Size);
    let got: Vec<&str> = fs.iter().map(|f| f.name.as_str()).collect();
    assert_eq!(got, vec!["c", "b", "a"]);
}

#[test]
fn set_files_sorts_and_keeps_index() {
    let mut s = State::new(Sorting::Natural, false);
    s.set_files(sample());
    assert_eq!(names(&s), vec!["rfc1.txt", "rfc822.txt", "rfc2086.txt"]);
    assert_eq!(s.selected(), None);
    s.update_selection(Some(2));
    s.set_files(vec![file("b", 0, 0, 0), file("a", 0, 0, 0)]);
    assert_eq!(names(&s), vec!["a", "b"]);
    assert_eq!(s.selected_file().map(|f| f.name.clone()), Some("a".to_string()));
    s.set_files(vec![]);
    assert_eq!(s.selected(), None);
}

#[test]
fn reverse_order_when_asked() {
    let mut s = State::new(Sorting::Size, true);
    s.set_files(sample());
    assert_eq!(names(&s), vec!["rfc822.txt", "rfc2086.txt", "rfc1.txt"]);
}

#[test]
fn sorting_keeps_selected_file() {
    let mut s = State::new(Sorting::Natural, false);
    s.set_files(sample());
    s.update_selection(Some(1));
    sort_by_size(&mut s);
    assert_eq!(s.sorting(), Sorting::Size);
    assert_eq!(names(&s), vec!["rfc1.txt", "rfc2086.txt", "rfc822.txt"]);
    assert_eq!(s.selected(), Some(2));
    sort_by_natural(&mut s);
    assert_eq!(s.selected(), Some(1));
}

#[test]
fn reverse_sort_flips_and_follows() {
    let mut s = State::new(Sorting::Natural, false);
    s.set_files(sample());
    s.update_selection(Some(0));
    reverse_sort(&mut s);
    assert!(s.reverse_sort());
    assert_eq!(names(&s), vec!["rfc2086.txt", "rfc822.txt", "rfc1.txt"]);
    assert_eq!(s.selected(), Some(2));
}

#[test]
fn selection_moves() {
    let mut s = State::new(Sorting::Name, false);
    let many: Vec<FileInfo> = (0..10).map(|i| file(&format!("f{}", i), 0, 0, 0)).collect();
    s.set_files(many);
    selection_down(&mut s, 0);
    assert_eq!(s.selected(), Some(0));
    selection_down(&mut s, 0);
    assert_eq!(s.selected(), Some(1));
    selection_down(&mut s, 5);
    assert_eq!(s.selected(), Some(6));
    selection_down(&mut s, 100);
    assert_eq!(s.selected(), Some(9));
    selection_up(&mut s, 3);
    assert_eq!(s.selected(), Some(6));
    selection_up(&mut s, 100);
    assert_eq!(s.selected(), Some(0));
    selection_top(&mut s, 4);
    assert_eq!(s.selected(), Some(3));
    selection_top(&mut s, 0);
    assert_eq!(s.selected(), Some(0));
    selection_top(&mut s, 50);
    assert_eq!(s.selected(), Some(9));
    selection_bottom(&mut s, 0);
    assert_eq!(s.selected(), Some(9));
    selection_bottom(&mut s, 3);
    assert_eq!(s.selected(), Some(7));
    selection_bottom(&mut s, 50);
    assert_eq!(s.selected(), Some(0));
    s.update_selection(None);
    selection_up(&mut s, 0);
    assert_eq!(s.selected(), Some(9));
}

#[test]
fn selection_on_empty_list_does_nothing() {
    let mut s = State::new(Sorting::Name, false);
    selection_down(&mut s, 3);
    selection_up(&mut s, 3);
    selection_top(&mut s, 3);
    selection_bottom(&mut s, 3);
    assert_eq!(s.selected(), None);
}

#[test]
fn apply_dispatches_commands() {
    let mut s = State::new(Sorting::Name, false);
    s.set_files(sample());
    assert_eq!(apply(&mut s, Action::SelectionDown, 2), Effect::ShowSelected);
    assert_eq!(s.selected(), Some(0));
    assert_eq!(apply(&mut s, Action::SelectionDown, 2), Effect::ShowSelected);
    assert_eq!(s.selected(), Some(2));
    assert_eq!(apply(&mut s, Action::SortBySize, 0), Effect::Nothing);
    assert_eq!(s.sorting(), Sorting::Size);
    assert_eq!(apply(&mut s, Action::OpenRelDateBwd, 3), Effect::OpenNote { offset: -3 });
    assert_eq!(apply(&mut s, Action::OpenRelDateFwd, 0), Effect::OpenNote { offset: 0 });
    assert_eq!(apply(&mut s, Action::OpenSelected, 0), Effect::OpenSelected);
    assert_eq!(apply(&mut s, Action::Nothing, 9), Effect::Nothing);
    assert_eq!(apply(&mut s, Action::ReverseSort, 0), Effect::Nothing);
    assert!(s.reverse_sort());
}

#[test]
fn date_text_is_zero_padded() {
    assert_eq!(format_date(&Date { year: 2024, month: 3, day: 7 }), "2024-03-07");
    assert_eq!(format_date(&Date { year: 987, month: 12, day: 31 }), "0987-12-31");
    assert_eq!(format_date(&Date { year: 12345, month: 1, day: 1 }), "+12345-01-01");
    assert_eq!(format_date(&Date { year: -5, month: 6, day: 15 }), "-0005-06-15");
}

#[test]
fn note_name_has_extension() {
    assert_eq!(note_file_name(&Date { year: 2023, month: 11, day: 2 }), "2023-11-02.md");
}

#[test]
fn relative_note_name_is_a_date() {
    let n = relative_note_name(0).expect("today is in range");
    assert_eq!(n.len(), 13);
    assert!(n.ends_with(".md"));
    assert_eq!(&n[4..5], "-");
    assert!(relative_note_name(i64::MAX).is_none());
}

#[test]
fn reversed_list_keeps_equal_files_stable_from_the_end() {
    let mut s = State::new(Sorting::Size, true);
    s.set_files(vec![file("b", 1, 0, 0), file("a", 1, 0, 0), file("c", 2, 0, 0)]);
    assert_eq!(names(&s), vec!["c", "a", "b"]);
}
