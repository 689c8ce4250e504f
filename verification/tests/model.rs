use fstree::explore::{build_dir, classify_leaf, error_node, shake_children, totals_fit, EntryKind};
use fstree::intern::StringPool;
use fstree::node::{make_other_stats, FileTypeExt, Node};
use fstree::stats::{Size, TypedStats};

fn file(pool: &mut StringPool, name: &str, ext: &str, real: u64, content: u64) -> Node {
    let name = pool.intern(name.to_string());
    let ext = pool.intern(ext.to_string());
    classify_leaf(EntryKind::Regular, name, ext, Size { real, content })
}

fn total_of(node: &Node) -> TypedStats {
    node.stats().total
}

#[test]
fn file_stats_counts_one_file() {
    let mut pool = StringPool::new();
    let f = file(&mut pool, "a.txt", "txt", 4096, 1000);
    let stats = f.stats();
    assert_eq!(stats.total.files.count, 1);
    assert_eq!(stats.total.files.size.real, 4096);
    assert_eq!(stats.total.files.size.content, 1000);
    assert_eq!(stats.total.dirs.count, 0);
    assert_eq!(stats.total.others.count, 0);
    assert_eq!(stats.total.errors, 0);
    assert_eq!(stats.by_extension.len(), 1);
    match stats.by_extension[0].0 {
        FileTypeExt::File(ext) => assert_eq!(pool.resolve(ext), "txt"),
        _ => panic!("file stats keyed off a wrong bucket"),
    }
}

#[test]
fn leaf_variants_count_in_others_bucket() {
    let mut pool = StringPool::new();
    let name = pool.intern("dev".to_string());
    let size = Size { real: 0, content: 0 };
    for kind in [
        EntryKind::Symlink,
        EntryKind::Block,
        EntryKind::Char,
        EntryKind::Fifo,
        EntryKind::Socket,
        EntryKind::Unknown,
    ] {
        let ext = pool.intern(String::new());
        let node = classify_leaf(kind, name, ext, size);
        let stats = node.stats();
        assert_eq!(stats.total.others.count, 1);
        assert_eq!(stats.total.files.count, 0);
        assert_eq!(stats.total.errors, 0);
        assert_eq!(stats.by_extension.len(), 1);
    }
}

#[test]
fn error_node_counts_one_error() {
    let node = error_node(None, "permission denied".to_string());
    let stats = node.stats();
    assert_eq!(stats.total.errors, 1);
    assert_eq!(stats.total.files.count, 0);
    match &node {
        Node::Error { name, error } => {
            assert!(name.is_none());
            assert_eq!(error.0, "permission denied");
        }
        _ => panic!("expected an error node"),
    }
}

#[test]
fn make_other_stats_uses_given_key() {
    let stats = make_other_stats(Size { real: 7, content: 5 }, FileTypeExt::Link);
    assert_eq!(stats.total.others.count, 1);
    assert_eq!(stats.total.others.size.real, 7);
    assert_eq!(stats.by_extension.len(), 1);
    assert!(matches!(stats.by_extension[0].0, FileTypeExt::Link));
}

#[test]
fn aggregation_sums_children_plus_own_bucket() {
    let mut pool = StringPool::new();
    let a = file(&mut pool, "a", "txt", 600, 500);
    let b = file(&mut pool, "b", "log", 1000, 900);
    let name = pool.intern("root".to_string());
    let base = Size { real: 4096, content: 4096 };
    let dir = build_dir(name, base, vec![a, b], 0);
    let stats = dir.stats();
    assert_eq!(stats.total.files.count, 2);
    assert_eq!(stats.total.files.size.real, 1600);
    assert_eq!(stats.total.files.size.content, 1400);
    assert_eq!(stats.total.dirs.count, 1);
    assert_eq!(stats.total.dirs.size.real, 4096);
    assert_eq!(stats.total.errors, 0);
    // Breakdown: Dir bucket plus one bucket per extension.
    assert_eq!(stats.by_extension.len(), 3);
}

#[test]
fn aggregation_merges_equal_extensions() {
    let mut pool = StringPool::new();
    let a = file(&mut pool, "a", "txt", 600, 500);
    let b = file(&mut pool, "b", "txt", 1000, 900);
    let name = pool.intern("root".to_string());
    let base = Size { real: 4096, content: 4096 };
    let dir = build_dir(name, base, vec![a, b], 0);
    let stats = dir.stats();
    assert_eq!(stats.by_extension.len(), 2);
    let ext = pool.intern("txt".to_string());
    let mut seen = false;
    for (key, value) in &stats.by_extension {
        if *key == FileTypeExt::File(ext) {
            seen = true;
            assert_eq!(value.files.count, 2);
            assert_eq!(value.files.size.real, 1600);
        }
    }
    assert!(seen, "no bucket for the shared extension");
}

#[test]
fn nested_aggregation_counts_grandchildren() {
    let mut pool = StringPool::new();
    let inner_file = file(&mut pool, "leaf", "txt", 100, 90);
    let inner_name = pool.intern("inner".to_string());
    let base = Size { real: 4096, content: 4096 };
    let inner = build_dir(inner_name, base, vec![inner_file], 0);
    let outer_name = pool.intern("outer".to_string());
    let outer = build_dir(outer_name, base, vec![inner], 0);
    let stats = outer.stats();
    assert_eq!(stats.total.files.count, 1);
    assert_eq!(stats.total.files.size.real, 100);
    assert_eq!(stats.total.dirs.count, 2);
    assert_eq!(stats.total.dirs.size.real, 8192);
}

#[test]
fn shake_threshold_never_changes_totals() {
    let mut pool = StringPool::new();
    let base = Size { real: 4096, content: 4096 };
    let name = pool.intern("root".to_string());
    let thresholds: [u64; 4] = [0, 599, 600, 10_000_000];
    let mut totals = vec![];
    let mut child_counts = vec![];
    for t in thresholds {
        let a = file(&mut pool, "a", "txt", 600, 500);
        let b = file(&mut pool, "b", "log", 1000, 900);
        let dir = build_dir(name, base, vec![a, b], t);
        totals.push(dir.stats().total);
        match dir {
            Node::Dir { children, .. } => child_counts.push(children.len()),
            _ => panic!("expected a directory"),
        }
    }
    for t in &totals {
        assert_eq!(t.files.count, totals[0].files.count);
        assert_eq!(t.files.size.real, totals[0].files.size.real);
        assert_eq!(t.files.size.content, totals[0].files.size.content);
        assert_eq!(t.dirs.count, totals[0].dirs.count);
        assert_eq!(t.others.count, totals[0].others.count);
        assert_eq!(t.errors, totals[0].errors);
    }
    assert_eq!(child_counts, vec![2, 2, 2, 0]);
}

#[test]
fn shake_boundary_keeps_exact_threshold() {
    let mut pool = StringPool::new();
    let at = file(&mut pool, "at", "txt", 1000, 1000);
    let below = file(&mut pool, "below", "txt", 999, 999);
    let visible = shake_children(vec![at, below], 1000);
    assert_eq!(visible.len(), 1);
    match &visible[0] {
        Node::File { name, .. } => assert_eq!(pool.resolve(*name), "at"),
        _ => panic!("expected a file"),
    }
}

#[test]
fn shake_drops_non_file_leaves_under_positive_threshold() {
    let mut pool = StringPool::new();
    let name = pool.intern("link".to_string());
    let link = classify_leaf(EntryKind::Symlink, name, name, Size { real: 50, content: 50 });
    let visible = shake_children(vec![link], 1);
    assert_eq!(visible.len(), 0);
}

#[test]
fn shake_elides_directory_of_tiny_files() {
    let mut pool = StringPool::new();
    let tiny = file(&mut pool, "tiny", "txt", 10, 10);
    let base = Size { real: 4096, content: 4096 };
    let inner_name = pool.intern("inner".to_string());
    let inner = build_dir(inner_name, base, vec![tiny], 100);
    let outer_name = pool.intern("outer".to_string());
    let outer = build_dir(outer_name, base, vec![inner], 100);
    let stats = outer.stats();
    // The inner directory disappears from the visible children while its
    // totals still count upward.
    match &outer {
        Node::Dir { children, .. } => assert_eq!(children.len(), 0),
        _ => panic!("expected a directory"),
    }
    assert_eq!(stats.total.files.count, 1);
    assert_eq!(stats.total.files.size.real, 10);
    assert_eq!(stats.total.dirs.count, 2);
}

#[test]
fn error_containment_keeps_siblings_counted() {
    let mut pool = StringPool::new();
    let a = file(&mut pool, "a", "txt", 600, 500);
    let b = file(&mut pool, "b", "txt", 1000, 900);
    let broken = error_node(Some(pool.intern("c".to_string())), "unreadable".to_string());
    let name = pool.intern("root".to_string());
    let base = Size { real: 4096, content: 4096 };
    let dir = build_dir(name, base, vec![broken, a, b], 0);
    let stats = dir.stats();
    assert_eq!(stats.total.errors, 1);
    assert_eq!(stats.total.files.count, 2);
    assert_eq!(stats.total.files.size.real, 1600);
    assert_eq!(stats.total.files.size.content, 1400);
    match &dir {
        Node::Dir { children, .. } => {
            assert_eq!(children.len(), 3);
            assert_eq!(children.iter().filter(|c| matches!(c, Node::Error { .. })).count(), 1);
            assert_eq!(children.iter().filter(|c| matches!(c, Node::File { .. })).count(), 2);
        }
        _ => panic!("expected a directory"),
    }
}

#[test]
fn end_to_end_small_file_shaken_but_counted() {
    let mut pool = StringPool::new();
    let kib: u64 = 1024;
    let mib: u64 = 1024 * 1024;
    // Apparent sizes 600 KiB and 10 MiB, both exactly block-aligned on disk.
    let a = file(&mut pool, "a", "", 600 * kib, 600 * kib);
    let b = file(&mut pool, "b", "", 10 * mib, 10 * mib);
    let name = pool.intern("root".to_string());
    let base = Size { real: 4096, content: 4096 };
    let root = build_dir(name, base, vec![a, b], mib);
    let stats = root.stats();
    assert_eq!(stats.total.files.count, 2);
    assert_eq!(stats.total.files.size.content, 600 * kib + 10 * mib);
    match &root {
        Node::Dir { children, .. } => {
            assert_eq!(children.len(), 1);
            match &children[0] {
                Node::File { name, .. } => assert_eq!(pool.resolve(*name), "b"),
                _ => panic!("expected the big file"),
            }
        }
        _ => panic!("expected a directory"),
    }
}

#[test]
fn totals_fit_detects_overflow() {
    let mut pool = StringPool::new();
    let huge = file(&mut pool, "huge", "", u64::MAX, 0);
    let one = file(&mut pool, "one", "", 1, 0);
    let base = Size { real: 0, content: 0 };
    assert!(totals_fit(&vec![], base));
    let both = vec![huge, one];
    assert!(!totals_fit(&both, base));
    let huge2 = file(&mut pool, "huge", "", u64::MAX, 0);
    assert!(totals_fit(&vec![huge2], base));
}
