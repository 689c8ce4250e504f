use fstree::cli::{Byte, DEFAULT_SHAKE};
use fstree::history::expired;
use fstree::intern::StringPool;
use fstree::progress::{bar_fill, bar_widths, ExploreContext};
use fstree::result::{make_err, Error};

#[test]
fn interning_deduplicates_equal_strings() {
    let mut pool = StringPool::new();
    let a = pool.intern("txt".to_string());
    let b = pool.intern("log".to_string());
    let a2 = pool.intern("txt".to_string());
    assert_eq!(a, a2);
    assert_eq!(a.id, a2.id);
    assert_ne!(a, b);
    assert_eq!(pool.len(), 2);
    assert_eq!(pool.resolve(a), "txt");
    assert_eq!(pool.resolve(b), "log");
}

#[test]
fn interning_empty_string_works() {
    let mut pool = StringPool::new();
    let e1 = pool.intern(String::new());
    let e2 = pool.intern("".to_string());
    assert_eq!(e1, e2);
    assert_eq!(pool.len(), 1);
    assert_eq!(pool.resolve(e1), "");
}

#[test]
fn progress_counters_stay_ordered() {
    let mut ctx = ExploreContext::new();
    assert_eq!(ctx.pending, 0);
    assert_eq!(ctx.complete, 0);
    assert!(!ctx.all_complete);
    ctx.add_pending(3);
    assert_eq!(ctx.pending, 3);
    assert_eq!(ctx.complete, 0);
    ctx.mark_complete();
    ctx.mark_complete();
    assert_eq!(ctx.pending, 3);
    assert_eq!(ctx.complete, 2);
    assert!(ctx.complete <= ctx.pending);
    assert!(!ctx.all_complete);
    ctx.set_all_complete();
    assert!(ctx.all_complete);
    assert_eq!(ctx.pending, 3);
    assert_eq!(ctx.complete, 2);
}

#[test]
fn bar_fill_rounds_the_ratio() {
    // Half done on a ten-column bar: five columns filled.
    assert_eq!(bar_fill(10, 5, 10), 5);
    // Nothing pending or nothing complete: empty bar.
    assert_eq!(bar_fill(10, 0, 0), 0);
    assert_eq!(bar_fill(10, 0, 7), 0);
    // One third of ten rounds down, one quarter of ten rounds 2.5 up.
    assert_eq!(bar_fill(10, 1, 3), 3);
    assert_eq!(bar_fill(10, 1, 4), 3);
    assert_eq!(bar_fill(10, 1, 5), 2);
    // Everything complete fills the whole bar.
    assert_eq!(bar_fill(10, 9, 9), 10);
}

#[test]
fn bar_widths_split_the_line() {
    let (fill, pad) = bar_widths(80, 12, 1, 2);
    assert_eq!(fill + pad, 80 - 12 - 4);
    assert_eq!(fill, 32);
    let (fill, pad) = bar_widths(80, 76, 0, 1);
    assert_eq!(fill, 0);
    assert_eq!(pad, 0);
}

#[test]
fn byte_parse_reads_common_units() {
    assert_eq!(Byte::parse("1MiB").unwrap().0, 1024 * 1024);
    assert_eq!(Byte::parse("600KiB").unwrap().0, 600 * 1024);
    assert_eq!(Byte::parse("10MB").unwrap().0, 10_000_000);
    assert_eq!(Byte::parse("123").unwrap().0, 123);
    assert_eq!(Byte::parse("1MiB").unwrap().0, DEFAULT_SHAKE);
}

#[test]
fn byte_parse_rejects_garbage() {
    assert!(Byte::parse("").is_err());
    assert!(Byte::parse("eleven").is_err());
}

#[test]
fn rotation_expires_only_past_window() {
    let month: u64 = 30 * 86400;
    assert!(!expired(month, 30));
    assert!(expired(month + 1, 30));
    assert!(!expired(0, 0));
    assert!(expired(1, 0));
}

#[test]
fn errors_carry_their_message() {
    let e = make_err("lost the directory".to_string());
    assert_eq!(e.as_err(), "lost the directory");
    let Error::Io(inner) = &e;
    assert_eq!(inner, "lost the directory");
}
