use hashring::HashRing;
use minikeyvalue::hashring::is_before;
use minikeyvalue::hashring::compute_score;
use minikeyvalue::hashring::compute_subvolume;
use minikeyvalue::hashring::is_ahead;
use minikeyvalue::hashring::Ring;

fn names(list: &[&str]) -> Vec<String> {
    list.iter().map(|s| s.to_string()).collect()
}

#[test]
fn test_new_ring() {
    let mut ring: HashRing<String> = HashRing::new();

    ring.batch_add(vec![
        "foo".to_string(),
        "bar".to_string(),
        "baz".to_string(),
        "wow".to_string(),
    ]);

    assert_eq!(ring.get(&"1").unwrap(), "foo");
    assert_eq!(ring.get(&"2").unwrap(), "foo");
    assert_eq!(ring.get(&"3").unwrap(), "baz");
    assert_eq!(ring.get(&"4").unwrap(), "bar");
}

#[test]
fn test_get_with_replicas() {
    let mut ring: HashRing<String> = HashRing::new();

    ring.batch_add(vec![
        "foo".to_string(),
        "bar".to_string(),
        "baz".to_string(),
        "wow".to_string(),
    ]);

    let nodes = ring.get_with_replicas(&1, 3).unwrap();
    assert_eq!(nodes[0], "foo");
    assert_eq!(nodes[1], "wow");
    assert_eq!(nodes[2], "bar");

    let nodes = ring.get_with_replicas(&2, 3).unwrap();
    assert_eq!(nodes[0], "baz");
    assert_eq!(nodes[1], "foo");
    assert_eq!(nodes[2], "wow");

    let nodes = ring.get_with_replicas(&3, 3).unwrap();
    assert_eq!(nodes[0], "wow");
    assert_eq!(nodes[1], "bar");
    assert_eq!(nodes[2], "baz");
}

#[test]
fn test_get_volume() {
    let ring = Ring::new(
        vec![
            "foo".to_string(),
            "bar".to_string(),
            "baz".to_string(),
            "wow".to_string(),
        ],
        3,
        10,
    );

    let key = "1";
    let volumes = ring.get_volume(key);
    // the three best of four, ranked by the MD5 of the key followed by the volume
    assert_eq!(volumes.len(), 3);
    assert_eq!(volumes[0], "baz/sv02");
    assert_eq!(volumes[1], "foo/sv09");
    assert_eq!(volumes[2], "wow/sv00");
}

#[test]
fn placement_single_replica_has_no_suffix() {
    let ring = Ring::new(names(&["larry", "moe", "curly"]), 1, 3);
    assert_eq!(ring.get_volume("hello"), names(&["larry"]));
    assert_eq!(ring.get_volume("helloworld"), names(&["curly"]));
    assert_eq!(ring.get_volume("world"), names(&["moe"]));
    assert_eq!(ring.get_volume("blah"), names(&["curly"]));
    assert_eq!(ring.get_volume("foo123"), names(&["moe"]));
}

#[test]
fn placement_with_subvolume() {
    let ring = Ring::new(names(&["larry", "moe", "curly"]), 3, 3);
    assert_eq!(ring.get_volume("hello")[0], "larry/sv00");
    assert_eq!(ring.get_volume("helloworld")[0], "curly/sv01");
    assert_eq!(ring.get_volume("world")[0], "moe/sv02");
}

#[test]
fn placement_full_order() {
    // md5("hello" + v): larry a4ec.., curly 9750.., moe 23a3..
    let ring = Ring::new(names(&["larry", "moe", "curly"]), 3, 3);
    let placed = ring.get_volume("hello");
    assert_eq!(placed.len(), 3);
    assert!(placed[0].starts_with("larry/sv"));
    assert!(placed[1].starts_with("curly/sv"));
    assert!(placed[2].starts_with("moe/sv"));
    // last four bytes of the moe score are 1d38481f
    assert_eq!(placed[2], format!("moe/sv{:02X}", 0x1d38481fu32 % 3));
}

#[test]
fn placement_is_deterministic() {
    let a = Ring::new(names(&["larry", "moe", "curly"]), 2, 10);
    let b = Ring::new(names(&["larry", "moe", "curly"]), 2, 10);
    for key in ["hello", "world", "k", ""] {
        assert_eq!(a.get_volume(key), b.get_volume(key));
        assert_eq!(a.get_volume(key), a.get_volume(key));
    }
}

#[test]
fn placement_length_is_bounded_by_volumes_and_replicas() {
    let ring = Ring::new(names(&["larry", "moe"]), 5, 10);
    assert_eq!(ring.get_volume("hello").len(), 2);
    let ring = Ring::new(names(&["larry", "moe", "curly"]), 2, 10);
    assert_eq!(ring.get_volume("hello").len(), 2);
    let ring = Ring::new(Vec::new(), 3, 10);
    assert_eq!(ring.get_volume("hello").len(), 0);
    let ring = Ring::new(names(&["larry"]), 0, 10);
    assert_eq!(ring.get_volume("hello").len(), 0);
}

#[test]
fn placement_order_does_not_depend_on_list_order() {
    let a = Ring::new(names(&["larry", "moe", "curly"]), 3, 7);
    let b = Ring::new(names(&["curly", "larry", "moe"]), 3, 7);
    assert_eq!(a.get_volume("hello"), b.get_volume("hello"));
}

#[test]
fn tail_growth_keeps_top_volume() {
    // "hello": larry (a4..) outranks a new volume "shemp" unless its score is higher.
    let before = Ring::new(names(&["larry", "moe", "curly"]), 1, 3);
    let after = Ring::new(names(&["larry", "moe", "curly", "shemp"]), 1, 3);
    for key in ["hello", "helloworld", "world", "blah", "foo123"] {
        let top = before.get_volume(key);
        let grown = after.get_volume(key);
        let top_score = compute_score(key, &top[0]);
        let new_score = compute_score(key, "shemp");
        if is_ahead(&top_score, &top[0], &new_score, "shemp") {
            assert_eq!(grown, top);
        } else {
            assert_eq!(grown, names(&["shemp"]));
        }
    }
}

#[test]
fn equal_volumes_are_ranked_together() {
    let ring = Ring::new(names(&["moe", "larry", "moe"]), 3, 1);
    let placed = ring.get_volume("world");
    assert_eq!(placed, names(&["moe/sv00", "moe/sv00", "larry/sv00"]));
}

#[test]
fn score_is_md5_of_key_then_volume() {
    let score = compute_score("hello", "larry");
    assert_eq!(
        score,
        [
            0xa4, 0xec, 0x47, 0x1b, 0x59, 0x73, 0xba, 0x1d, 0x0f, 0xcc, 0xa8, 0xed, 0x70, 0x34,
            0x3c, 0xcd
        ]
    );
    assert_eq!(compute_subvolume(&score, 3), 0x70343ccdu32 % 3);
    assert_eq!(compute_subvolume(&score, 1000), 0x70343ccdu32 % 1000);
}

#[test]
fn wide_subvolume_numbers_keep_all_their_digits() {
    let ring = Ring::new(names(&["larry", "moe"]), 2, 100000);
    let placed = ring.get_volume("hello");
    // larry outranks moe for "hello"
    assert_eq!(placed[0], format!("larry/sv{:02X}", 0x70343ccdu32 % 100000));
    assert_eq!(placed[1], format!("moe/sv{:02X}", 0x1d38481fu32 % 100000));
}

#[test]
fn byte_order_is_lexicographic() {
    assert!(is_before(b"", b"a"));
    assert!(!is_before(b"a", b""));
    assert!(!is_before(b"abc", b"abc"));
    assert!(is_before(b"ab", b"abc"));
    assert!(is_before(b"abc", b"abd"));
    assert!(!is_before(b"b", b"abc"));
    assert!(is_ahead(&[2], "x", &[1], "a"));
    assert!(!is_ahead(&[1], "a", &[2], "x"));
    assert!(is_ahead(&[1], "a", &[1], "b"));
    assert!(!is_ahead(&[1], "b", &[1], "a"));
    assert!(!is_ahead(&[1], "a", &[1], "a"));
}
