//! Building directory nodes: bottom-up aggregation of children statistics
//! and the leaf-shaking policy over the visible children sequence.

use vstd::prelude::*;

use crate::intern::StringRef;
use crate::node::{
    ext_at, has_key, model_wf, sum_values, unique_keys, FileTypeExt, Node, NodeStats, StaticError,
};
use crate::node::{lemma_ext_at_le_sum_values, lemma_leaf_stats_wf};
use crate::stats::{AggI, AggStats, Size, SizeI, TypedI, TypedStats};

verus! {

/// Entry type reported by a metadata probe, with symlinks not followed.
#[derive(Debug, Clone, Copy, PartialEq, Eq, Structural)]
pub enum EntryKind {
    Directory,
    Regular,
    Symlink,
    Block,
    Char,
    Fifo,
    Socket,
    Unknown,
}

/// The leaf node a non-directory entry classifies to.
pub open spec fn classify_spec(
    kind: EntryKind,
    name: StringRef,
    extension: StringRef,
    size: Size,
) -> Node {
    match kind {
        EntryKind::Directory => Node::Other { name, extension, size },
        EntryKind::Regular => Node::File { name, extension, size },
        EntryKind::Symlink => Node::Link { name, size },
        EntryKind::Block => Node::BlockDevice { name, size },
        EntryKind::Char => Node::CharDevice { name, size },
        EntryKind::Fifo => Node::NamedPipe { name, size },
        EntryKind::Socket => Node::UnixSocket { name, size },
        EntryKind::Unknown => Node::Other { name, extension, size },
    }
}

/// Classify one successfully probed non-directory entry into its leaf node.
/// Directories are expanded by `build_dir` instead.
pub fn classify_leaf(kind: EntryKind, name: StringRef, extension: StringRef, size: Size) -> (r:
    Node)
    requires
        kind != EntryKind::Directory,
    ensures
        r == classify_spec(kind, name, extension, size),
        r.stats_wf(),
        !(r is Dir),
{
    let r = match kind {
        EntryKind::Directory => Node::Other { name, extension, size },
        EntryKind::Regular => Node::File { name, extension, size },
        EntryKind::Symlink => Node::Link { name, size },
        EntryKind::Block => Node::BlockDevice { name, size },
        EntryKind::Char => Node::CharDevice { name, size },
        EntryKind::Fifo => Node::NamedPipe { name, size },
        EntryKind::Socket => Node::UnixSocket { name, size },
        EntryKind::Unknown => Node::Other { name, extension, size },
    };
    proof {
        lemma_leaf_stats_wf(r);
    }
    r
}

/// Record a locally recovered failure as a node.
pub fn error_node(name: Option<StringRef>, message: String) -> (r: Node)
    ensures
        r is Error,
        r->Error_name == name,
        r->Error_error.0@ == message@,
        r.stats_wf(),
    {
    let r = Node::Error { name, error: StaticError(message) };
    proof {
        lemma_leaf_stats_wf(r);
    }
    r
}

/// The typed aggregate a directory contributes for itself: one entry in the
/// `dirs` bucket carrying the directory's own size.
pub open spec fn dir_bucket(base: SizeI) -> TypedI {
    TypedI {
        files: AggI::zero(),
        dirs: AggI { count: 1, size: base },
        others: AggI::zero(),
        errors: 0,
    }
}

/// Sum of the children's own statistics totals, as unbounded integers.
pub open spec fn sum_totals(s: Seq<Node>) -> TypedI
    decreases s.len(),
{
    if s.len() == 0 {
        TypedI::zero()
    } else {
        sum_totals(s.drop_last()).add(s.last().spec_stats().total@)
    }
}

/// Sum of the children's breakdown contributions under the key `k`.
pub open spec fn sum_ext_at(s: Seq<Node>, k: FileTypeExt) -> TypedI
    decreases s.len(),
{
    if s.len() == 0 {
        TypedI::zero()
    } else {
        sum_ext_at(s.drop_last(), k).add(ext_at(s.last().spec_stats().by_ext, k))
    }
}

/// Grand total of a directory over the children that existed at probe time:
/// the directory's own `dirs`-bucket entry plus every child's total.
pub open spec fn dir_total(children: Seq<Node>, base: SizeI) -> TypedI {
    dir_bucket(base).add(sum_totals(children))
}

/// Per-key breakdown of a directory over the children that existed at probe
/// time.
pub open spec fn dir_ext_at(children: Seq<Node>, base: SizeI, k: FileTypeExt) -> TypedI {
    (if k == FileTypeExt::Dir {
        dir_bucket(base)
    } else {
        TypedI::zero()
    }).add(sum_ext_at(children, k))
}

/// The stored total of a directory built from `children` with its own size
/// `base` under the shake threshold `shake`.
pub closed spec fn built_total(children: Seq<Node>, base: SizeI, shake: u64) -> TypedI {
    dir_total(children, base)
}

/// Whether shaking keeps a child visible: only a child whose aggregated
/// `files` bucket allocates at least `shake` bytes on disk stays.
pub open spec fn keeps(n: Node, shake: u64) -> bool {
    n.spec_stats().total.files.size.real >= shake
}

/// The visible children after shaking with threshold `shake`, in order.
pub open spec fn shaken(s: Seq<Node>, shake: u64) -> Seq<Node>
    decreases s.len(),
{
    if s.len() == 0 {
        Seq::empty()
    } else {
        let rest = shaken(s.drop_first(), shake);
        if keeps(s.first(), shake) {
            seq![s.first()] + rest
        } else {
            rest
        }
    }
}

/// Aggregation correctness: the total a built directory stores is the
/// commutative sum of the statistics of every child present at probe time,
/// plus the directory's own `dirs`-bucket entry — whatever the shake
/// threshold was.
pub proof fn lemma_aggregation_correctness(children: Seq<Node>, base: SizeI, shake: u64)
    ensures
        built_total(children, base, shake) == dir_bucket(base).add(sum_totals(children)),
{
}

/// Shake idempotence on totals: changing the shake threshold never changes
/// the stored total of a built directory; it only changes which children are
/// visible.
pub proof fn lemma_shake_idempotence_on_totals(
    children: Seq<Node>,
    base: SizeI,
    t1: u64,
    t2: u64,
)
    ensures
        built_total(children, base, t1) == built_total(children, base, t2),
{
}

/// Shaking selects exactly the kept children: a node is visible after
/// shaking if and only if it was among the children and `keeps` holds of it.
pub proof fn lemma_shaken_membership(s: Seq<Node>, shake: u64, n: Node)
    ensures
        shaken(s, shake).contains(n) <==> s.contains(n) && keeps(n, shake),
    decreases s.len(),
{
    if s.len() > 0 {
        lemma_shaken_membership(s.drop_first(), shake, n);
        assert(s.contains(n) <==> n == s.first() || s.drop_first().contains(n)) by {
            if s.contains(n) {
                let i = choose|i: int| 0 <= i < s.len() && s[i] == n;
                if i > 0 {
                    assert(s.drop_first()[i - 1] == n);
                }
            }
            if s.drop_first().contains(n) {
                let i = choose|i: int| 0 <= i < s.drop_first().len() && s.drop_first()[i] == n;
                assert(s[i + 1] == n);
            }
        }
        if keeps(s.first(), shake) {
            let rest = shaken(s.drop_first(), shake);
            let whole = seq![s.first()] + rest;
            assert(whole.contains(n) <==> n == s.first() || rest.contains(n)) by {
                assert(whole[0] == s.first());
                if whole.contains(n) {
                    let i = choose|i: int| 0 <= i < whole.len() && whole[i] == n;
                    if i > 0 {
                        assert(rest[i - 1] == n);
                    }
                }
                if rest.contains(n) {
                    let i = choose|i: int| 0 <= i < rest.len() && rest[i] == n;
                    assert(whole[i + 1] == n);
                }
            }
        }
    }
}

/// Shake boundary: a regular-file leaf whose on-disk size equals the
/// threshold is kept; one whose on-disk size is a single byte below it is
/// shaken away.
pub proof fn lemma_shake_boundary(name: StringRef, extension: StringRef, size: Size, shake: u64)
    ensures
        keeps(Node::File { name, extension, size }, shake) <==> size.real >= shake,
        size.real == shake ==> keeps(Node::File { name, extension, size }, shake),
        size.real < shake ==> !keeps(Node::File { name, extension, size }, shake),
{
}

/// Extending a prefix of children by one adds that child's total.
proof fn lemma_sum_totals_subrange_succ(s: Seq<Node>, i: int)
    requires
        0 <= i < s.len(),
    ensures
        sum_totals(s.subrange(0, i + 1)) == sum_totals(s.subrange(0, i)).add(
            s[i].spec_stats().total@,
        ),
{
    assert(s.subrange(0, i + 1).drop_last() =~= s.subrange(0, i));
}

/// Extending a prefix of children by one adds that child's contribution at
/// every key.
proof fn lemma_sum_ext_subrange_succ(s: Seq<Node>, i: int, k: FileTypeExt)
    requires
        0 <= i < s.len(),
    ensures
        sum_ext_at(s.subrange(0, i + 1), k) == sum_ext_at(s.subrange(0, i), k).add(
            ext_at(s[i].spec_stats().by_ext, k),
        ),
{
    assert(s.subrange(0, i + 1).drop_last() =~= s.subrange(0, i));
}

/// Sums of child totals have no negative component.
proof fn lemma_sum_totals_nonneg(s: Seq<Node>)
    ensures
        sum_totals(s).nonneg(),
    decreases s.len(),
{
    if s.len() > 0 {
        lemma_sum_totals_nonneg(s.drop_last());
    }
}

/// Sums of child contributions at one key have no negative component.
proof fn lemma_sum_ext_nonneg(s: Seq<Node>, k: FileTypeExt)
    ensures
        sum_ext_at(s, k).nonneg(),
    decreases s.len(),
{
    if s.len() > 0 {
        lemma_sum_ext_nonneg(s.drop_last(), k);
        lemma_ext_at_le_sum_values(s.last().spec_stats().by_ext, k);
    }
}

/// A prefix sum of child totals never exceeds the sum over all children.
proof fn lemma_sum_totals_prefix_le(s: Seq<Node>, i: int)
    requires
        0 <= i <= s.len(),
    ensures
        sum_totals(s.subrange(0, i)).le(sum_totals(s)),
    decreases s.len() - i,
{
    if i == s.len() {
        assert(s.subrange(0, i) =~= s);
    } else {
        lemma_sum_totals_subrange_succ(s, i);
        lemma_sum_totals_prefix_le(s, i + 1);
    }
}

/// A prefix sum of per-key contributions never exceeds the sum over all
/// children.
proof fn lemma_sum_ext_prefix_le(s: Seq<Node>, k: FileTypeExt, i: int)
    requires
        0 <= i <= s.len(),
    ensures
        sum_ext_at(s.subrange(0, i), k).le(sum_ext_at(s, k)),
    decreases s.len() - i,
{
    if i == s.len() {
        assert(s.subrange(0, i) =~= s);
    } else {
        lemma_sum_ext_subrange_succ(s, i, k);
        lemma_sum_ext_prefix_le(s, k, i + 1);
        lemma_ext_at_le_sum_values(s[i].spec_stats().by_ext, k);
    }
}

/// Extending a prefix of breakdown entries by one adds its value to the sum.
proof fn lemma_pairs_sum_subrange_succ(pr: Seq<(FileTypeExt, TypedStats)>, j: int)
    requires
        0 <= j < pr.len(),
    ensures
        sum_values(pr.subrange(0, j + 1)) == sum_values(pr.subrange(0, j)).add(pr[j].1@),
{
    assert(pr.subrange(0, j + 1).drop_last() =~= pr.subrange(0, j));
}

/// Extending a prefix of breakdown entries by one adds its contribution at
/// every key.
proof fn lemma_pairs_ext_subrange_succ(pr: Seq<(FileTypeExt, TypedStats)>, j: int, k: FileTypeExt)
    requires
        0 <= j < pr.len(),
    ensures
        ext_at(pr.subrange(0, j + 1), k) == ext_at(pr.subrange(0, j), k).add(
            if pr[j].0 == k {
                pr[j].1@
            } else {
                TypedI::zero()
            },
        ),
{
    assert(pr.subrange(0, j + 1).drop_last() =~= pr.subrange(0, j));
}

/// A prefix of breakdown entries contributes at most the whole sequence does,
/// at every key.
proof fn lemma_pairs_ext_prefix_le(pr: Seq<(FileTypeExt, TypedStats)>, k: FileTypeExt, j: int)
    requires
        0 <= j <= pr.len(),
    ensures
        ext_at(pr.subrange(0, j), k).le(ext_at(pr, k)),
        ext_at(pr.subrange(0, j), k).nonneg(),
    decreases pr.len() - j,
{
    lemma_ext_at_le_sum_values(pr.subrange(0, j), k);
    if j == pr.len() {
        assert(pr.subrange(0, j) =~= pr);
    } else {
        lemma_pairs_ext_subrange_succ(pr, j, k);
        lemma_pairs_ext_prefix_le(pr, k, j + 1);
    }
}

/// With well-formed children, the contributions at one key never exceed the
/// sum of the children's totals.
proof fn lemma_sum_ext_le_sum_totals(s: Seq<Node>, k: FileTypeExt)
    requires
        forall|i: int| 0 <= i < s.len() ==> s[i].stats_wf(),
    ensures
        sum_ext_at(s, k).le(sum_totals(s)),
    decreases s.len(),
{
    if s.len() > 0 {
        assert(forall|i: int|
            0 <= i < s.drop_last().len() ==> #[trigger] s.drop_last()[i].stats_wf());
        lemma_sum_ext_le_sum_totals(s.drop_last(), k);
        lemma_ext_at_le_sum_values(s.last().spec_stats().by_ext, k);
        assert(s[s.len() - 1].stats_wf());
    }
}

/// Index of the breakdown entry carrying the key `k`, if one does.
fn find_key(pairs: &Vec<(FileTypeExt, TypedStats)>, k: FileTypeExt) -> (r: Option<usize>)
    ensures
        match r {
            Some(i) => i < pairs@.len() && pairs@[i as int].0 == k,
            None => !has_key(pairs@, k),
        },
{
    let n = pairs.len();
    let mut i: usize = 0;
    while i < n
        invariant
            n == pairs@.len(),
            i <= n,
            forall|j: int| 0 <= j < i ==> pairs@[j].0 != k,
        decreases n - i,
    {
        if pairs[i].0 == k {
            return Some(i);
        }
        i += 1;
    }
    proof {
        crate::node::lemma_has_key_index(pairs@, k);
    }
    None
}

/// Add one breakdown contribution into an accumulator whose keys are
/// unique: the value is merged into the entry already carrying its key, or
/// appended as a new entry.
#[verifier::spinoff_prover]
#[verifier::rlimit(50)]
fn merge_pair(pairs: &mut Vec<(FileTypeExt, TypedStats)>, p: (FileTypeExt, TypedStats))
    requires
        unique_keys(old(pairs)@),
        ext_at(old(pairs)@, p.0).add(p.1@).in_bounds(),
    ensures
        unique_keys(final(pairs)@),
        sum_values(final(pairs)@) == sum_values(old(pairs)@).add(p.1@),
        forall|k: FileTypeExt|
            ext_at(final(pairs)@, k) == ext_at(old(pairs)@, k).add(
                if p.0 == k {
                    p.1@
                } else {
                    TypedI::zero()
                },
            ),
        forall|k: FileTypeExt| has_key(final(pairs)@, k) <==> has_key(old(pairs)@, k) || p.0 == k,
{
    let found = find_key(pairs, p.0);
    match found {
        Some(idx) => {
            proof {
                crate::node::lemma_ext_at_unique(pairs@, idx as int);
            }
            let merged = pairs[idx].1.add(p.1);
            let ghost before = pairs@;
            pairs[idx] = (p.0, merged);
            proof {
                assert(pairs@ == before.update(idx as int, (p.0, merged)));
                crate::node::lemma_sum_values_update(before, idx as int, (p.0, merged));
                assert forall|k: FileTypeExt|
                    ext_at(pairs@, k) == ext_at(before, k).add(
                        if p.0 == k {
                            p.1@
                        } else {
                            TypedI::zero()
                        },
                    ) by {
                    crate::node::lemma_ext_at_update(before, idx as int, (p.0, merged), k);
                }
                assert forall|k: FileTypeExt|
                    has_key(pairs@, k) <==> has_key(before, k) || p.0 == k by {
                    crate::node::lemma_has_key_update(before, idx as int, (p.0, merged), k);
                    if p.0 == k {
                        crate::node::lemma_has_key_index(before, k);
                    }
                }
            }
        },
        None => {
            let ghost before = pairs@;
            pairs.push(p);
            proof {
                assert(pairs@ == before.push(p));
                crate::node::lemma_sum_values_push(before, p);
                crate::node::lemma_ext_at_absent(before, p.0);
                assert forall|k: FileTypeExt|
                    ext_at(pairs@, k) == ext_at(before, k).add(
                        if p.0 == k {
                            p.1@
                        } else {
                            TypedI::zero()
                        },
                    ) by {
                    crate::node::lemma_ext_at_push(before, p, k);
                }
                assert forall|k: FileTypeExt|
                    has_key(pairs@, k) <==> has_key(before, k) || p.0 == k by {
                    crate::node::lemma_has_key_push(before, p, k);
                }
                assert(unique_keys(pairs@)) by {
                    crate::node::lemma_has_key_index(before, p.0);
                    assert(forall|a: int|
                        0 <= a < before.len() ==> #[trigger] pairs@[a].0 != p.0);
                }
            }
        },
    }
}

/// Aggregate a directory's statistics bottom-up from the completed children,
/// plus one `dirs`-bucket entry for the directory's own size. Every child's
/// `by_extension` contribution is merged into the breakdown, so the result
/// satisfies the `NodeStats` invariant.
#[verifier::loop_isolation(false)]
#[verifier::rlimit(50)]
pub fn aggregate(children: &Vec<Node>, base_size: Size) -> (r: NodeStats)
    requires
        forall|i: int| 0 <= i < children@.len() ==> children@[i].stats_wf(),
        dir_total(children@, base_size@).in_bounds(),
    ensures
        r@.total@ == dir_total(children@, base_size@),
        model_wf(r@),
        forall|k: FileTypeExt| ext_at(r@.by_ext, k) == dir_ext_at(children@, base_size@, k),
        forall|k: FileTypeExt|
            has_key(r@.by_ext, k) <==> (k == FileTypeExt::Dir || exists|j: int|
                0 <= j < children@.len() && has_key(#[trigger] children@[j].spec_stats().by_ext, k)),
{
    let base_total = TypedStats {
        files: AggStats { count: 0, size: Size { real: 0, content: 0 } },
        dirs: AggStats { count: 1, size: base_size },
        others: AggStats { count: 0, size: Size { real: 0, content: 0 } },
        errors: 0,
    };
    let mut total = base_total;
    let mut by_ext: Vec<(FileTypeExt, TypedStats)> = Vec::new();
    by_ext.push((FileTypeExt::Dir, base_total));
    proof {
        assert(base_total@ == dir_bucket(base_size@));
        assert(by_ext@ =~= seq![(FileTypeExt::Dir, base_total)]);
        let empty_pairs = Seq::<(FileTypeExt, TypedStats)>::empty();
        assert(by_ext@.drop_last() =~= empty_pairs);
        assert(sum_values(empty_pairs) == TypedI::zero());
        assert(sum_values(by_ext@) == TypedI::zero().add(base_total@));
        let empty_children = Seq::<Node>::empty();
        assert(children@.subrange(0, 0) =~= empty_children);
        assert(sum_totals(empty_children) == TypedI::zero());
        assert(total@ == dir_total(children@.subrange(0, 0), base_size@));
        assert forall|k: FileTypeExt|
            ext_at(by_ext@, k) == dir_ext_at(children@.subrange(0, 0), base_size@, k) by {
            assert(ext_at(empty_pairs, k) == TypedI::zero());
            assert(sum_ext_at(empty_children, k) == TypedI::zero());
        }
        assert forall|k: FileTypeExt| has_key(by_ext@, k) <==> k == FileTypeExt::Dir by {
            assert(!has_key(empty_pairs, k));
        }
    }
    let n = children.len();
    let mut i: usize = 0;
    while i < n
        invariant
            i <= n,
            total@ == dir_total(children@.subrange(0, i as int), base_size@),
            unique_keys(by_ext@),
            sum_values(by_ext@) == total@,
            forall|k: FileTypeExt|
                ext_at(by_ext@, k) == dir_ext_at(children@.subrange(0, i as int), base_size@, k),
            forall|k: FileTypeExt|
                has_key(by_ext@, k) <==> (k == FileTypeExt::Dir || exists|j: int|
                    0 <= j < i && has_key(#[trigger] children@[j].spec_stats().by_ext, k)),
        decreases n - i,
    {
        let child = &children[i];
        let stat = child.stats();
        proof {
            lemma_sum_totals_subrange_succ(children@, i as int);
            lemma_sum_totals_prefix_le(children@, i + 1 as int);
            lemma_sum_totals_nonneg(children@.subrange(0, i + 1 as int));
            assert(total@.add(stat.total@) == dir_total(
                children@.subrange(0, i + 1 as int),
                base_size@,
            ));
            assert(total@.add(stat.total@).in_bounds());
        }
        let new_total = total.add(stat.total);
        let ghost c_start = by_ext@;
        let ghost child_pairs = child.spec_stats().by_ext;
        let m = stat.by_extension.len();
        let mut j: usize = 0;
        while j < m
            invariant
                j <= m,
                unique_keys(by_ext@),
                sum_values(by_ext@) == sum_values(c_start).add(
                    sum_values(child_pairs.subrange(0, j as int)),
                ),
                forall|k: FileTypeExt|
                    ext_at(by_ext@, k) == ext_at(c_start, k).add(
                        ext_at(child_pairs.subrange(0, j as int), k),
                    ),
                forall|k: FileTypeExt|
                    has_key(by_ext@, k) <==> has_key(c_start, k) || has_key(
                        child_pairs.subrange(0, j as int),
                        k,
                    ),
            decreases m - j,
        {
            let p = stat.by_extension[j];
            let ghost key = p.0;
            proof {
                // The merged value at `key` stays within the overall bound.
                lemma_pairs_ext_subrange_succ(child_pairs, j as int, key);
                lemma_pairs_ext_prefix_le(child_pairs, key, j + 1 as int);
                lemma_sum_ext_subrange_succ(children@, i as int, key);
                lemma_sum_ext_prefix_le(children@, key, i + 1 as int);
                lemma_sum_ext_le_sum_totals(children@, key);
                lemma_sum_totals_nonneg(children@);
                lemma_sum_ext_nonneg(children@.subrange(0, i + 1 as int), key);
                lemma_pairs_ext_prefix_le(child_pairs, key, j as int);
                lemma_ext_at_le_sum_values(by_ext@, key);
                assert(ext_at(by_ext@, key).add(p.1@) == ext_at(c_start, key).add(
                    ext_at(child_pairs.subrange(0, j + 1 as int), key),
                ));
                assert(ext_at(by_ext@, key).add(p.1@).le(dir_ext_at(children@, base_size@, key)));
                assert(dir_ext_at(children@, base_size@, key).le(
                    dir_total(children@, base_size@),
                ));
                assert(ext_at(by_ext@, key).add(p.1@).nonneg());
                assert(ext_at(by_ext@, key).add(p.1@).in_bounds());
            }
            let ghost before_merge = by_ext@;
            proof {
                // Restate the invariant for the snapshot the merge starts from.
                assert(forall|k: FileTypeExt|
                    has_key(before_merge, k) <==> has_key(c_start, k) || has_key(
                        child_pairs.subrange(0, j as int),
                        k,
                    ));
            }
            merge_pair(&mut by_ext, p);
            proof {
                lemma_pairs_sum_subrange_succ(child_pairs, j as int);
                assert forall|k: FileTypeExt|
                    ext_at(by_ext@, k) == ext_at(c_start, k).add(
                        ext_at(child_pairs.subrange(0, j + 1 as int), k),
                    ) by {
                    lemma_pairs_ext_subrange_succ(child_pairs, j as int, k);
                }
                assert forall|k: FileTypeExt|
                    has_key(by_ext@, k) <==> has_key(c_start, k) || has_key(
                        child_pairs.subrange(0, j + 1 as int),
                        k,
                    ) by {
                    assert(has_key(by_ext@, k) <==> has_key(before_merge, k) || key == k);
                    assert(has_key(before_merge, k) <==> has_key(c_start, k) || has_key(
                        child_pairs.subrange(0, j as int),
                        k,
                    ));
                    crate::node::lemma_has_key_subrange_succ(child_pairs, j as int, k);
                }
            }
            j += 1;
        }
        proof {
            assert(child_pairs.subrange(0, m as int) =~= child_pairs);
            // The child's own invariant closes the sum over the breakdown.
            assert(children@[i as int].stats_wf());
            assert(sum_values(child_pairs) == child.spec_stats().total@);
            assert(sum_values(by_ext@) == total@.add(stat.total@)) by {
                assert(sum_values(by_ext@) == sum_values(c_start).add(sum_values(child_pairs)));
            }
            lemma_sum_totals_subrange_succ(children@, i as int);
            assert forall|k: FileTypeExt|
                ext_at(by_ext@, k) == dir_ext_at(
                    children@.subrange(0, i + 1 as int),
                    base_size@,
                    k,
                ) by {
                lemma_sum_ext_subrange_succ(children@, i as int, k);
            }
            assert forall|k: FileTypeExt|
                has_key(by_ext@, k) <==> (k == FileTypeExt::Dir || exists|t: int|
                    0 <= t < i + 1 && has_key(
                        #[trigger] children@[t].spec_stats().by_ext,
                        k,
                    )) by {
                assert(has_key(by_ext@, k) <==> has_key(c_start, k) || has_key(child_pairs, k));
                if has_key(by_ext@, k) && k != FileTypeExt::Dir {
                    if has_key(c_start, k) {
                        let t = choose|t: int|
                            0 <= t < i && has_key(#[trigger] children@[t].spec_stats().by_ext, k);
                        assert(0 <= t < i + 1 && has_key(children@[t].spec_stats().by_ext, k));
                    } else {
                        assert(has_key(child_pairs, k));
                        assert(has_key(children@[i as int].spec_stats().by_ext, k));
                    }
                }
                if k == FileTypeExt::Dir || exists|t: int|
                    0 <= t < i + 1 && has_key(#[trigger] children@[t].spec_stats().by_ext, k) {
                    if k != FileTypeExt::Dir {
                        let t = choose|t: int|
                            0 <= t < i + 1 && has_key(
                                #[trigger] children@[t].spec_stats().by_ext,
                                k,
                            );
                        if t < i {
                            assert(has_key(c_start, k));
                        } else {
                            assert(has_key(child_pairs, k));
                        }
                    }
                }
            }
        }
        total = new_total;
        i += 1;
    }
    proof {
        assert(children@.subrange(0, n as int) =~= children@);
    }
    NodeStats { total, by_extension: by_ext }
}

/// Filter the children down to the visible sequence, dropping every child
/// that shaking removes. The aggregates computed over the full sequence are
/// unaffected; this reduces only what is stored and displayed.
pub fn shake_children(children: Vec<Node>, shake: u64) -> (r: Vec<Node>)
    ensures
        r@ == shaken(children@, shake),
{
    let ghost orig = children@;
    let mut rest = children;
    let mut r: Vec<Node> = Vec::new();
    proof {
        assert(r@ + shaken(rest@, shake) =~= shaken(orig, shake));
    }
    while rest.len() > 0
        invariant
            r@ + shaken(rest@, shake) == shaken(orig, shake),
        decreases rest.len(),
    {
        let ghost prev = rest@;
        let c = rest.remove(0);
        proof {
            assert(rest@ =~= prev.drop_first());
            assert(c == prev.first());
        }
        let st = c.stats();
        if st.total.files.size.real >= shake {
            let ghost r_prev = r@;
            r.push(c);
            proof {
                assert(keeps(c, shake));
                assert(r@ + shaken(rest@, shake) =~= r_prev + shaken(prev, shake));
            }
        } else {
            proof {
                assert(!keeps(c, shake));
                assert(shaken(prev, shake) == shaken(rest@, shake));
            }
        }
    }
    proof {
        assert(rest@ =~= Seq::<Node>::empty());
        assert(r@ + shaken(rest@, shake) =~= r@);
    }
    r
}

/// Expand one directory from its completed children: aggregate the
/// statistics over every child plus the directory's own size, then shake the
/// visible children. Shaking never touches the stored aggregates.
pub fn build_dir(name: StringRef, base_size: Size, children: Vec<Node>, shake: u64) -> (r: Node)
    requires
        forall|i: int| 0 <= i < children@.len() ==> children@[i].stats_wf(),
        dir_total(children@, base_size@).in_bounds(),
    ensures
        r is Dir,
        r->Dir_name == name,
        r->Dir_children@ == shaken(children@, shake),
        r->Dir_stats@.total@ == built_total(children@, base_size@, shake),
        r->Dir_stats@.total@ == dir_total(children@, base_size@),
        forall|k: FileTypeExt|
            ext_at(r->Dir_stats@.by_ext, k) == dir_ext_at(children@, base_size@, k),
        forall|k: FileTypeExt|
            has_key(r->Dir_stats@.by_ext, k) <==> (k == FileTypeExt::Dir || exists|j: int|
                0 <= j < children@.len() && has_key(#[trigger] children@[j].spec_stats().by_ext, k)),
        r.stats_wf(),
{
    let stats = aggregate(&children, base_size);
    let visible = shake_children(children, shake);
    Node::Dir { name, children: visible, stats }
}

/// Whether the directory total over these children can be represented in the
/// stored counters, so that `aggregate` or `build_dir` may be called on them.
#[verifier::loop_isolation(false)]
pub fn totals_fit(children: &Vec<Node>, base_size: Size) -> (b: bool)
    ensures
        b == dir_total(children@, base_size@).in_bounds(),
{
    let mut acc = TypedStats {
        files: AggStats { count: 0, size: Size { real: 0, content: 0 } },
        dirs: AggStats { count: 1, size: base_size },
        others: AggStats { count: 0, size: Size { real: 0, content: 0 } },
        errors: 0,
    };
    proof {
        let empty_children = Seq::<Node>::empty();
        assert(children@.subrange(0, 0) =~= empty_children);
        assert(sum_totals(empty_children) == TypedI::zero());
        assert(acc@ == dir_total(children@.subrange(0, 0), base_size@));
    }
    let n = children.len();
    let mut i: usize = 0;
    while i < n
        invariant
            i <= n,
            acc@ == dir_total(children@.subrange(0, i as int), base_size@),
        decreases n - i,
    {
        let st = children[i].stats();
        proof {
            lemma_sum_totals_subrange_succ(children@, i as int);
        }
        let next = acc.checked_add(st.total);
        match next {
            Some(a) => {
                acc = a;
            },
            None => {
                proof {
                    // A prefix already overflows, so the whole total does.
                    lemma_sum_totals_prefix_le(children@, i + 1 as int);
                    lemma_sum_totals_nonneg(children@.subrange(0, i + 1 as int));
                    assert(!dir_total(children@.subrange(0, i + 1 as int), base_size@).in_bounds());
                    assert(dir_total(children@.subrange(0, i + 1 as int), base_size@).le(
                        dir_total(children@, base_size@),
                    ));
                    assert(!dir_total(children@, base_size@).in_bounds());
                }
                return false;
            },
        }
        i += 1;
    }
    proof {
        assert(children@.subrange(0, n as int) =~= children@);
    }
    true
}

} // verus!

