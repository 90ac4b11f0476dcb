use chess_core::book::{select_best, select_weighted, Node, OpeningBook};

fn leaf(mov: &str, score: i32) -> Node {
    Node { mov: mov.to_string(), score, children: Vec::new() }
}

fn sample_book() -> OpeningBook {
    let e4 = Node {
        mov: "e4".to_string(),
        score: 100,
        children: vec![leaf("e5", 60), leaf("c5", 40)],
    };
    let root = Node { mov: String::new(), score: 100, children: vec![e4] };
    OpeningBook::new(root)
}

#[test]
fn book_query_picks_best_child() {
    let book = sample_book();
    assert_eq!(book.query("e4"), Some("e5".to_string()));
}

#[test]
fn book_query_without_children_gives_none() {
    let book = sample_book();
    assert_eq!(book.query("e4 e5"), None);
}

#[test]
fn book_query_unknown_move_gives_none() {
    let book = sample_book();
    assert_eq!(book.query("d4"), None);
}

#[test]
fn book_query_empty_moves_uses_root() {
    let book = sample_book();
    assert_eq!(book.query(""), Some("e4".to_string()));
    assert_eq!(book.query("   e4  "), Some("e5".to_string()));
}

#[test]
fn best_policy_ties_go_to_first() {
    let node = Node {
        mov: String::new(),
        score: 10,
        children: vec![leaf("a", 3), leaf("b", 7), leaf("c", 7)],
    };
    assert_eq!(select_best(&node), Some("b".to_string()));
}

#[test]
fn best_policy_negative_scores_give_none() {
    let node = Node { mov: String::new(), score: 0, children: vec![leaf("a", -3), leaf("b", -1)] };
    assert_eq!(select_best(&node), None);
    let zero = Node { mov: String::new(), score: 0, children: vec![leaf("a", -3), leaf("b", 0)] };
    assert_eq!(select_best(&zero), Some("b".to_string()));
}

#[test]
fn weighted_policy_follows_running_sum() {
    let node = Node { mov: "e4".to_string(), score: 100, children: vec![leaf("e5", 60), leaf("c5", 40)] };
    assert_eq!(select_weighted(&node, 50), Some("e5".to_string()));
    assert_eq!(select_weighted(&node, 60), Some("e5".to_string()));
    assert_eq!(select_weighted(&node, 61), Some("c5".to_string()));
    assert_eq!(select_weighted(&node, 100), Some("c5".to_string()));
    // 205 % 101 == 3
    assert_eq!(select_weighted(&node, 205), Some("e5".to_string()));
    // remainder keeps the sign of the draw
    assert_eq!(select_weighted(&node, -170), Some("e5".to_string()));
}

#[test]
fn weighted_policy_unreached_target_gives_none() {
    let node = Node { mov: String::new(), score: 100, children: vec![leaf("a", 10), leaf("b", 20)] };
    assert_eq!(select_weighted(&node, 50), None);
    let minus_one = Node { mov: String::new(), score: -1, children: vec![leaf("a", 10)] };
    assert_eq!(select_weighted(&minus_one, 5), None);
}

#[test]
fn seeded_weighted_query_is_deterministic() {
    let mut a = sample_book();
    a.use_best_move = false;
    a.seed = Some(11122001);
    let mut b = sample_book();
    b.use_best_move = false;
    b.seed = Some(11122001);
    let first = a.query("e4");
    assert!(first == Some("e5".to_string()) || first == Some("c5".to_string()));
    for _ in 0..5 {
        assert_eq!(a.query("e4"), first);
        assert_eq!(b.query("e4"), first);
    }
}

#[test]
fn unseeded_weighted_query_picks_a_child() {
    let mut a = sample_book();
    a.use_best_move = false;
    let r = a.query("e4");
    assert!(r == Some("e5".to_string()) || r == Some("c5".to_string()));
}
