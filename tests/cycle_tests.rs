use cratebot::announce::{announcement_text, url_of};
use cratebot::catalog::{resume_page, CatalogWalk, WalkStep, PAGE_SIZE};
use cratebot::cycle::{cycle_due, start_page};
use cratebot::select::{choose_one, SelectError};

#[test]
fn resume_page_skips_full_pages() {
    assert_eq!(resume_page(250, 100), 3);
    assert_eq!(resume_page(0, 100), 1);
    assert_eq!(resume_page(100, 100), 2);
    assert_eq!(start_page(250), 3);
    assert_eq!(PAGE_SIZE, 100);
}

fn walk_catalog(items: &[String], start: Option<u64>) -> (Vec<u64>, Vec<usize>, Vec<String>) {
    let size = PAGE_SIZE as usize;
    let mut walk = CatalogWalk::start(start, PAGE_SIZE);
    let mut requests: Vec<u64> = Vec::new();
    let mut sizes: Vec<usize> = Vec::new();
    while let WalkStep::Fetch(page) = walk.next_step() {
        requests.push(page);
        let lo = ((page as usize - 1) * size).min(items.len());
        let hi = (page as usize * size).min(items.len());
        sizes.push(hi - lo);
        walk.on_page(items[lo..hi].to_vec());
    }
    assert_eq!(walk.next_step(), WalkStep::Done);
    (requests, sizes, walk.into_names())
}

fn catalog(n: usize) -> Vec<String> {
    (0..n).map(|i| format!("pkg{i}")).collect()
}

#[test]
fn walk_over_two_and_a_half_pages() {
    let items = catalog(250);
    let (requests, sizes, names) = walk_catalog(&items, None);
    assert_eq!(requests, vec![1, 2, 3]);
    assert_eq!(sizes, vec![100, 100, 50]);
    assert_eq!(names, items);
}

#[test]
fn walk_over_whole_pages_ends_on_empty_page() {
    let items = catalog(200);
    let (requests, sizes, names) = walk_catalog(&items, None);
    assert_eq!(requests, vec![1, 2, 3]);
    assert_eq!(sizes, vec![100, 100, 0]);
    assert_eq!(names, items);
}

#[test]
fn walk_over_empty_catalog() {
    let (requests, sizes, names) = walk_catalog(&[], None);
    assert_eq!(requests, vec![1]);
    assert_eq!(sizes, vec![0]);
    assert!(names.is_empty());
}

#[test]
fn walk_resumes_from_given_page() {
    let items = catalog(250);
    let (requests, _, names) = walk_catalog(&items, Some(start_page(200)));
    assert_eq!(requests, vec![3]);
    assert_eq!(names, items[200..].to_vec());
}

#[test]
fn walk_from_given_page() {
    let mut walk = CatalogWalk::start(Some(3), 2);
    assert_eq!(walk.next_step(), WalkStep::Fetch(3));
    walk.on_page(vec!["a".to_string(), "b".to_string()]);
    assert_eq!(walk.next_step(), WalkStep::Fetch(4));
    walk.on_page(vec!["c".to_string()]);
    assert_eq!(walk.next_step(), WalkStep::Done);
    assert_eq!(walk.into_names(), vec!["a".to_string(), "b".to_string(), "c".to_string()]);
}

#[test]
fn choose_from_empty_pool_fails() {
    assert_eq!(choose_one(&Vec::new()), Err(SelectError::EmptyPool));
}

#[test]
fn choose_one_returns_member() {
    let pool = vec!["alpha".to_string(), "gamma".to_string()];
    for _ in 0..20 {
        let c = choose_one(&pool).unwrap();
        assert!(pool.contains(&c));
    }
    assert_eq!(choose_one(&vec!["only".to_string()]), Ok("only".to_string()));
}

#[test]
fn announcement_with_description_and_owners() {
    let text = announcement_text(
        &"serde".to_string(),
        &Some("A serialization framework".to_string()),
        &vec!["dtolnay".to_string(), "erickt".to_string()],
    );
    assert_eq!(
        text,
        "(dtolnay, erickt) / serde: A serialization framework\nhttps://crates.io/crates/serde"
    );
}

#[test]
fn announcement_without_description_or_owners() {
    let text = announcement_text(&"foo".to_string(), &None, &Vec::new());
    assert_eq!(text, "foo\nhttps://crates.io/crates/foo");
    let text = announcement_text(&"foo".to_string(), &Some("bar".to_string()), &vec!["me".to_string()]);
    assert_eq!(text, "(me) / foo: bar\nhttps://crates.io/crates/foo");
    assert_eq!(url_of(&"bar".to_string()), "https://crates.io/crates/bar");
}

#[test]
fn cycle_due_after_an_hour() {
    assert!(!cycle_due(0));
    assert!(!cycle_due(3599));
    assert!(cycle_due(3600));
    assert!(cycle_due(7200));
}
