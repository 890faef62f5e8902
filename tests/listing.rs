use tf_viewer::listing::{reversed, DataRequest};

fn request(start: usize, length: usize, dir: &str) -> DataRequest {
    DataRequest { draw: 1, start, length, column: 0, dir: dir.to_string() }
}

#[test]
fn page_in_descending_order() {
    let rows = vec![5, 4, 3, 2, 1];
    assert_eq!(request(1, 2, "desc").select_page(rows), vec![4, 3]);
}

#[test]
fn page_in_ascending_order() {
    let rows = vec![5, 4, 3, 2, 1];
    assert_eq!(request(1, 2, "asc").select_page(rows), vec![2, 3]);
}

#[test]
fn page_past_the_end() {
    assert_eq!(request(4, 10, "desc").select_page(vec![5, 4, 3, 2, 1]), vec![1]);
    assert_eq!(request(9, 10, "asc").select_page(vec![5, 4, 3]), Vec::<i32>::new());
    assert_eq!(request(0, usize::MAX, "desc").select_page(vec![1, 2]), vec![1, 2]);
}

#[test]
fn only_asc_means_ascending() {
    assert!(request(0, 0, "asc").is_ascending());
    assert!(!request(0, 0, "ASC").is_ascending());
    assert!(!request(0, 0, "ascending").is_ascending());
    assert!(!request(0, 0, "").is_ascending());
}

#[test]
fn reverse_rows() {
    assert_eq!(reversed(vec!["a", "b", "c"]), vec!["c", "b", "a"]);
}
