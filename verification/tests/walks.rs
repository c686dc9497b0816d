use std::collections::HashMap;
use zurished::error::Error;
use zurished::error::OpenFailure;
use zurished::listing::Entry;
use zurished::walker::WalkReply;
use zurished::walker::WalkRequest;
use zurished::walker::Walker;

/// A directory tree held in memory: the listing of each directory by path.
/// A directory that is missing cannot be opened.
struct Disk {
    listings: HashMap<String, Vec<Option<(String, bool)>>>,
}

impl Disk {
    fn new() -> Disk {
        Disk { listings: HashMap::new() }
    }

    fn dir(mut self, path: &str, entries: &[(&str, bool)]) -> Disk {
        let slots = entries.iter().map(|(name, is_dir)| Some((name.to_string(), *is_dir)));
        self.listings.insert(path.to_string(), slots.collect());
        self
    }

    fn broken_entry(mut self, path: &str, at: usize) -> Disk {
        self.listings.get_mut(path).unwrap().insert(at, None);
        self
    }
}

/// Walks the tree below `root`, and says what was yielded and what was
/// opened.
fn walk(disk: &Disk, root: &str) -> (Vec<String>, Vec<String>) {
    let mut yielded = Vec::new();
    let mut opened = Vec::new();
    let mut walker = Walker::new(root, Ok(())).unwrap();
    let mut stream = disk.listings[root].iter();
    for _ in 0..10_000 {
        let reply = match stream.next() {
            Some(slot) => WalkReply::Found(
                slot.as_ref().map(|(name, is_dir)| Entry { name: name.clone(), is_dir: *is_dir }),
            ),
            None => WalkReply::End,
        };
        let mut request = walker.step(reply);
        loop {
            match request {
                WalkRequest::Read => break,
                WalkRequest::Yield(path) => {
                    yielded.push(path);
                    break;
                }
                WalkRequest::Open(path) => {
                    opened.push(path.clone());
                    match disk.listings.get(&path) {
                        Some(slots) => {
                            stream = slots.iter();
                            request = walker.step(WalkReply::Opened(true));
                        }
                        None => request = walker.step(WalkReply::Opened(false)),
                    }
                }
                WalkRequest::Finished => {
                    assert!(walker.is_finished());
                    return (yielded, opened);
                }
            }
        }
        assert!(!walker.is_finished());
    }
    panic!("the walk does not end");
}

fn sorted(mut paths: Vec<String>) -> Vec<String> {
    paths.sort();
    paths
}

#[test]
fn the_walk_yields_every_visible_file_once() {
    let disk = Disk::new()
        .dir("src/test", &[("1.jpeg", false), ("2.jpeg", false), ("2016", true)])
        .dir("src/test/2016", &[("3.jpeg", false)]);
    let (yielded, opened) = walk(&disk, "src/test");
    assert_eq!(
        sorted(yielded),
        vec!["src/test/1.jpeg", "src/test/2.jpeg", "src/test/2016/3.jpeg"]
    );
    assert_eq!(opened, vec!["src/test/2016"]);
}

#[test]
fn the_walk_of_an_empty_directory_yields_nothing() {
    let (yielded, opened) = walk(&Disk::new().dir("empty", &[]), "empty");
    assert_eq!(yielded.len(), 0);
    assert_eq!(opened.len(), 0);
}

#[test]
fn the_walk_yields_no_hidden_file() {
    let disk = Disk::new()
        .dir("r", &[(".a", false), ("b", false), (".git", true), ("sub", true)])
        .dir("r/.git", &[("config", false), ("objects", true)])
        .dir("r/.git/objects", &[("pack", false)])
        .dir("r/sub", &[(".c", false), ("d", false), (".e", true)])
        .dir("r/sub/.e", &[("f", false)]);
    let (yielded, opened) = walk(&disk, "r");
    assert_eq!(sorted(yielded), vec!["r/b", "r/sub/d"]);
    assert_eq!(opened, vec!["r/sub"]);
}

#[test]
fn the_walk_never_yields_a_directory() {
    let disk = Disk::new()
        .dir("r", &[("a", true), ("b", true)])
        .dir("r/a", &[("c", true)])
        .dir("r/a/c", &[])
        .dir("r/b", &[]);
    let (yielded, opened) = walk(&disk, "r");
    assert_eq!(yielded.len(), 0);
    assert_eq!(sorted(opened), vec!["r/a", "r/a/c", "r/b"]);
}

#[test]
fn the_walk_opens_the_directory_met_last_first() {
    let disk = Disk::new()
        .dir("r", &[("a", true), ("1", false), ("b", true), ("2", false)])
        .dir("r/a", &[("3", false)])
        .dir("r/b", &[("c", true), ("4", false)])
        .dir("r/b/c", &[("5", false)]);
    let (yielded, opened) = walk(&disk, "r");
    assert_eq!(yielded, vec!["r/1", "r/2", "r/b/4", "r/b/c/5", "r/a/3"]);
    assert_eq!(opened, vec!["r/b", "r/b/c", "r/a"]);
}

#[test]
fn the_walk_passes_over_what_cannot_be_read() {
    let disk = Disk::new()
        .dir("r", &[("a", false), ("gone", true), ("sub", true), ("b", false)])
        .broken_entry("r", 1)
        .dir("r/sub", &[("c", false)])
        .broken_entry("r/sub", 0);
    let (yielded, opened) = walk(&disk, "r");
    assert_eq!(sorted(yielded), vec!["r/a", "r/b", "r/sub/c"]);
    assert_eq!(opened, vec!["r/sub", "r/gone"]);
}

#[test]
fn the_walk_yields_the_same_files_in_any_order_of_the_listing() {
    let one = Disk::new()
        .dir("r", &[("a", false), ("x", true), ("b", false), ("y", true)])
        .dir("r/x", &[("c", false), ("d", false)])
        .dir("r/y", &[("e", false)]);
    let other = Disk::new()
        .dir("r", &[("y", true), ("b", false), ("x", true), ("a", false)])
        .dir("r/x", &[("d", false), ("c", false)])
        .dir("r/y", &[("e", false)]);
    assert_eq!(sorted(walk(&one, "r").0), sorted(walk(&other, "r").0));
    assert_eq!(sorted(walk(&one, "r").0), vec!["r/a", "r/b", "r/x/c", "r/x/d", "r/y/e"]);
}

#[test]
fn the_walk_cannot_start_where_the_root_cannot_be_opened() {
    assert!(matches!(Walker::new("r", Err(OpenFailure::NotFound)), Err(Error::NotFound)));
    assert!(matches!(
        Walker::new("r", Err(OpenFailure::PermissionDenied)),
        Err(Error::PermissionDenied)
    ));
    assert!(matches!(Walker::new("r", Err(OpenFailure::Other)), Err(Error::NotFound)));
}

#[test]
fn a_reply_of_the_wrong_kind_has_the_request_made_again() {
    let mut walker = Walker::new("r", Ok(())).unwrap();
    assert!(matches!(walker.step(WalkReply::Opened(true)), WalkRequest::Read));
    let dir = Entry { name: "sub".to_string(), is_dir: true };
    assert!(matches!(walker.step(WalkReply::Found(Some(dir))), WalkRequest::Read));
    assert!(matches!(walker.step(WalkReply::End), WalkRequest::Open(path) if path == "r/sub"));
    assert!(matches!(walker.step(WalkReply::End), WalkRequest::Open(path) if path == "r/sub"));
    assert!(matches!(walker.step(WalkReply::Found(None)), WalkRequest::Open(path) if path == "r/sub"));
    assert!(matches!(walker.step(WalkReply::Opened(true)), WalkRequest::Read));
    let file = Entry { name: "a".to_string(), is_dir: false };
    assert!(matches!(walker.step(WalkReply::Found(Some(file))), WalkRequest::Yield(path) if path == "r/sub/a"));
}

#[test]
fn a_walk_that_is_over_stays_over() {
    let mut walker = Walker::new("r", Ok(())).unwrap();
    assert!(!walker.is_finished());
    assert!(matches!(walker.step(WalkReply::End), WalkRequest::Finished));
    assert!(walker.is_finished());
    assert!(matches!(walker.step(WalkReply::End), WalkRequest::Finished));
    assert!(matches!(walker.step(WalkReply::Opened(true)), WalkRequest::Finished));
    assert!(matches!(walker.step(WalkReply::Found(None)), WalkRequest::Finished));
    assert!(walker.is_finished());
}
