use pfm::listing::{sort_dir_entries, DirEntry};

fn e(name: &str, is_dir: bool) -> DirEntry {
    DirEntry { name: name.to_string(), path: format!("/x/{}", name), is_dir, size: 1 }
}

#[test]
fn folders_first_then_case_insensitive_names() {
    let input = vec![e("b.txt", false), e("Zeta", true), e("A.txt", false), e("alpha", true), e("c", false)];
    let out = sort_dir_entries(input);
    let names: Vec<&str> = out.iter().map(|d| d.name.as_str()).collect();
    assert_eq!(names, vec!["alpha", "Zeta", "A.txt", "b.txt", "c"]);
}

#[test]
fn equal_keys_keep_their_order() {
    let input = vec![e("Read", false), e("read", false), e("READ", false)];
    let out = sort_dir_entries(input);
    let paths: Vec<&str> = out.iter().map(|d| d.path.as_str()).collect();
    assert_eq!(paths, vec!["/x/Read", "/x/read", "/x/READ"]);
}

#[test]
fn empty_listing() {
    assert!(sort_dir_entries(vec![]).is_empty());
}

#[test]
fn listing_keeps_every_entry() {
    let names = ["q", "Ä", "b", "B", "zz", "a1", "A1", "m", "é", "x"];
    let input: Vec<DirEntry> = names.iter().enumerate().map(|(i, n)| e(n, i % 3 == 0)).collect();
    let out = sort_dir_entries(input.clone());
    assert_eq!(out.len(), input.len());
    let mut before: Vec<String> = input.iter().map(|d| d.path.clone()).collect();
    let mut after: Vec<String> = out.iter().map(|d| d.path.clone()).collect();
    before.sort();
    after.sort();
    assert_eq!(before, after);
    let first_file = out.iter().position(|d| !d.is_dir).unwrap();
    assert!(out[first_file..].iter().all(|d| !d.is_dir));
}
