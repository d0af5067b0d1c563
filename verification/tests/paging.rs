use shuttle_christmas::paging::{slice_query, Page, Pagination};

fn names(n: usize) -> Vec<String> {
    (0..n).map(|i| format!("n{i}")).collect()
}

fn whole(page: Option<Page>) -> Vec<String> {
    match page {
        Some(Page::Whole(window)) => window,
        _ => panic!("a whole window was expected"),
    }
}

fn pieces(page: Option<Page>) -> Vec<Vec<String>> {
    match page {
        Some(Page::Split(pieces)) => pieces,
        _ => panic!("a window in pieces was expected"),
    }
}

fn query(offset: Option<usize>, limit: Option<usize>, split: Option<usize>, n: usize) -> Option<Page> {
    slice_query(&Pagination { offset, limit, split }, &names(n))
}

#[test]
fn window_without_bounds_is_the_list() {
    assert_eq!(whole(query(None, None, None, 4)), names(4));
    assert_eq!(whole(query(None, None, None, 0)), names(0));
}

#[test]
fn window_by_offset_and_limit() {
    assert_eq!(whole(query(Some(3), Some(5), None, 10)), names(10)[3..8].to_vec());
    assert_eq!(whole(query(Some(3), None, None, 10)), names(10)[3..].to_vec());
    assert_eq!(whole(query(None, Some(2), None, 10)), names(10)[..2].to_vec());
    assert_eq!(whole(query(Some(8), Some(5), None, 10)), names(10)[8..].to_vec());
    assert_eq!(whole(query(Some(10), Some(5), None, 10)), names(0));
    assert_eq!(whole(query(Some(2), Some(0), None, 10)), names(0));
    assert_eq!(whole(query(Some(2), Some(usize::MAX), None, 10)), names(10)[2..].to_vec());
}

#[test]
fn window_in_pieces() {
    let all = names(10);
    assert_eq!(
        pieces(query(None, None, Some(4), 10)),
        vec![all[0..4].to_vec(), all[4..8].to_vec(), all[8..10].to_vec()]
    );
    assert_eq!(pieces(query(Some(2), Some(4), Some(2), 10)), vec![all[2..4].to_vec(), all[4..6].to_vec()]);
    assert_eq!(pieces(query(None, None, Some(10), 10)), vec![all.clone()]);
    assert_eq!(pieces(query(None, None, Some(usize::MAX), 10)), vec![all.clone()]);
    assert_eq!(pieces(query(None, None, Some(1), 3)), vec![all[0..1].to_vec(), all[1..2].to_vec(), all[2..3].to_vec()]);
    assert_eq!(pieces(query(Some(10), None, Some(3), 10)), Vec::<Vec<String>>::new());
}

#[test]
fn window_that_does_not_fit() {
    assert!(query(Some(11), None, None, 10).is_none());
    assert!(query(Some(11), Some(1), None, 10).is_none());
    assert!(query(Some(1), None, None, 0).is_none());
    assert!(query(None, None, Some(0), 10).is_none());
    assert!(query(Some(usize::MAX), Some(usize::MAX), Some(2), 10).is_none());
}
