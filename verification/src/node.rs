//! The typed node tree produced by a scan, and the statistics attached to it.

use vstd::prelude::*;

use crate::intern::StringRef;
use crate::stats::{AggStats, Size, TypedI, TypedStats};

verus! {

/// Message of a failure that was recovered locally and recorded as data.
#[derive(Debug, Clone)]
pub struct StaticError(pub String);

impl StaticError {
    pub fn new(message: String) -> (r: StaticError)
        ensures
            r.0@ == message@,
    {
        StaticError(message)
    }
}

/// Breakdown key: entry type, refined by interned extension for files and
/// unrecognized entries.
#[derive(Debug, Clone, Copy, PartialEq, Eq, Hash, Structural)]
pub enum FileTypeExt {
    File(StringRef),
    Dir,
    Link,
    BlockDevice,
    CharDevice,
    NamedPipe,
    UnixSocket,
    Error,
    Other(StringRef),
}

/// Aggregated statistics of a directory subtree: the grand total and its
/// breakdown by `FileTypeExt`. Well-formed values (see `model_wf`) carry
/// mutually exclusive, exhaustive breakdown entries that sum to `total`.
#[derive(Debug, Clone)]
pub struct NodeStats {
    pub total: TypedStats,
    pub by_extension: Vec<(FileTypeExt, TypedStats)>,
}

/// Mathematical content of a `NodeStats`.
pub struct StatsModel {
    pub total: TypedStats,
    pub by_ext: Seq<(FileTypeExt, TypedStats)>,
}

impl View for NodeStats {
    type V = StatsModel;

    open spec fn view(&self) -> StatsModel {
        StatsModel { total: self.total, by_ext: self.by_extension@ }
    }
}

/// One filesystem entry. Every variant but `Error` carries an interned name
/// and the entry's size; `Dir` additionally owns its visible (post-shake)
/// children and the aggregates computed over all of its entries.
#[derive(Debug)]
pub enum Node {
    File { name: StringRef, extension: StringRef, size: Size },
    Dir { name: StringRef, children: Vec<Node>, stats: NodeStats },
    Link { name: StringRef, size: Size },
    Error { name: Option<StringRef>, error: StaticError },
    BlockDevice { name: StringRef, size: Size },
    CharDevice { name: StringRef, size: Size },
    NamedPipe { name: StringRef, size: Size },
    UnixSocket { name: StringRef, size: Size },
    Other { name: StringRef, extension: StringRef, size: Size },
}

/// Typed aggregate of a single regular file.
pub open spec fn file_typed(size: Size) -> TypedStats {
    TypedStats {
        files: AggStats { count: 1, size },
        dirs: AggStats { count: 0, size: Size { real: 0, content: 0 } },
        others: AggStats { count: 0, size: Size { real: 0, content: 0 } },
        errors: 0,
    }
}

/// Typed aggregate of a single entry counted in the `others` bucket.
pub open spec fn other_typed(size: Size) -> TypedStats {
    TypedStats {
        files: AggStats { count: 0, size: Size { real: 0, content: 0 } },
        dirs: AggStats { count: 0, size: Size { real: 0, content: 0 } },
        others: AggStats { count: 1, size },
        errors: 0,
    }
}

/// Typed aggregate of a single unreadable entry.
pub open spec fn error_typed() -> TypedStats {
    TypedStats {
        files: AggStats { count: 0, size: Size { real: 0, content: 0 } },
        dirs: AggStats { count: 0, size: Size { real: 0, content: 0 } },
        others: AggStats { count: 0, size: Size { real: 0, content: 0 } },
        errors: 1,
    }
}

impl Node {
    /// Statistics of one node: leaf variants describe themselves, a directory
    /// reports the aggregates computed when it was built.
    pub open spec fn spec_stats(self) -> StatsModel {
        match self {
            Node::File { extension, size, .. } => StatsModel {
                total: file_typed(size),
                by_ext: seq![(FileTypeExt::File(extension), file_typed(size))],
            },
            Node::Dir { stats, .. } => stats@,
            Node::Link { size, .. } => other_model(size, FileTypeExt::Link),
            Node::Error { .. } => StatsModel {
                total: error_typed(),
                by_ext: seq![(FileTypeExt::Error, error_typed())],
            },
            Node::BlockDevice { size, .. } => other_model(size, FileTypeExt::BlockDevice),
            Node::CharDevice { size, .. } => other_model(size, FileTypeExt::CharDevice),
            Node::NamedPipe { size, .. } => other_model(size, FileTypeExt::NamedPipe),
            Node::UnixSocket { size, .. } => other_model(size, FileTypeExt::UnixSocket),
            Node::Other { extension, size, .. } => StatsModel {
                total: other_typed(size),
                by_ext: seq![(FileTypeExt::Other(extension), other_typed(size))],
            },
        }
    }

    /// The node's own statistics are well-formed. For leaves this always
    /// holds; for a directory it constrains the stored aggregates.
    pub open spec fn stats_wf(self) -> bool {
        model_wf(self.spec_stats())
    }

    /// Compute this node's statistics.
    pub fn stats(&self) -> (r: NodeStats)
        ensures
            r@ == self.spec_stats(),
    {
        match self {
            Node::File { extension, size, .. } => {
                let typed = TypedStats {
                    files: AggStats { count: 1, size: *size },
                    dirs: AggStats { count: 0, size: Size { real: 0, content: 0 } },
                    others: AggStats { count: 0, size: Size { real: 0, content: 0 } },
                    errors: 0,
                };
                let mut by_extension: Vec<(FileTypeExt, TypedStats)> = Vec::new();
                by_extension.push((FileTypeExt::File(*extension), typed));
                proof {
                    assert(by_extension@ =~= seq![(FileTypeExt::File(*extension), typed)]);
                }
                NodeStats { total: typed, by_extension }
            },
            Node::Dir { stats, .. } => {
                let mut by_extension: Vec<(FileTypeExt, TypedStats)> = Vec::new();
                let n = stats.by_extension.len();
                let mut i: usize = 0;
                while i < n
                    invariant
                        n == stats.by_extension@.len(),
                        i <= n,
                        by_extension@ == stats.by_extension@.subrange(0, i as int),
                    decreases n - i,
                {
                    by_extension.push(stats.by_extension[i]);
                    proof {
                        assert(by_extension@ =~= stats.by_extension@.subrange(0, i + 1 as int));
                    }
                    i += 1;
                }
                proof {
                    assert(by_extension@ =~= stats.by_extension@);
                }
                NodeStats { total: stats.total, by_extension }
            },
            Node::Link { size, .. } => make_other_stats(*size, FileTypeExt::Link),
            Node::Error { .. } => {
                let typed = TypedStats {
                    files: AggStats { count: 0, size: Size { real: 0, content: 0 } },
                    dirs: AggStats { count: 0, size: Size { real: 0, content: 0 } },
                    others: AggStats { count: 0, size: Size { real: 0, content: 0 } },
                    errors: 1,
                };
                let mut by_extension: Vec<(FileTypeExt, TypedStats)> = Vec::new();
                by_extension.push((FileTypeExt::Error, typed));
                proof {
                    assert(by_extension@ =~= seq![(FileTypeExt::Error, typed)]);
                }
                NodeStats { total: typed, by_extension }
            },
            Node::BlockDevice { size, .. } => make_other_stats(*size, FileTypeExt::BlockDevice),
            Node::CharDevice { size, .. } => make_other_stats(*size, FileTypeExt::CharDevice),
            Node::NamedPipe { size, .. } => make_other_stats(*size, FileTypeExt::NamedPipe),
            Node::UnixSocket { size, .. } => make_other_stats(*size, FileTypeExt::UnixSocket),
            Node::Other { extension, size, .. } => {
                let typed = TypedStats {
                    files: AggStats { count: 0, size: Size { real: 0, content: 0 } },
                    dirs: AggStats { count: 0, size: Size { real: 0, content: 0 } },
                    others: AggStats { count: 1, size: *size },
                    errors: 0,
                };
                let mut by_extension: Vec<(FileTypeExt, TypedStats)> = Vec::new();
                by_extension.push((FileTypeExt::Other(*extension), typed));
                proof {
                    assert(by_extension@ =~= seq![(FileTypeExt::Other(*extension), typed)]);
                }
                NodeStats { total: typed, by_extension }
            },
        }
    }
}

/// Statistics of a single node counted in the `others` bucket under the
/// breakdown key `fte`.
pub open spec fn other_model(size: Size, fte: FileTypeExt) -> StatsModel {
    StatsModel { total: other_typed(size), by_ext: seq![(fte, other_typed(size))] }
}

/// Build the statistics of one node counted in the `others` bucket.
pub fn make_other_stats(size: Size, fte: FileTypeExt) -> (r: NodeStats)
    ensures
        r@ == other_model(size, fte),
{
    let typed = TypedStats {
        files: AggStats { count: 0, size: Size { real: 0, content: 0 } },
        dirs: AggStats { count: 0, size: Size { real: 0, content: 0 } },
        others: AggStats { count: 1, size },
        errors: 0,
    };
    let mut by_extension: Vec<(FileTypeExt, TypedStats)> = Vec::new();
    by_extension.push((fte, typed));
    proof {
        assert(by_extension@ =~= seq![(fte, typed)]);
    }
    NodeStats { total: typed, by_extension }
}

/// Sum of the breakdown values of `pairs`, as unbounded integers.
pub open spec fn sum_values(pairs: Seq<(FileTypeExt, TypedStats)>) -> TypedI
    decreases pairs.len(),
{
    if pairs.len() == 0 {
        TypedI::zero()
    } else {
        sum_values(pairs.drop_last()).add(pairs.last().1@)
    }
}

/// Sum of the breakdown values of `pairs` recorded under the key `k`.
pub open spec fn ext_at(pairs: Seq<(FileTypeExt, TypedStats)>, k: FileTypeExt) -> TypedI
    decreases pairs.len(),
{
    if pairs.len() == 0 {
        TypedI::zero()
    } else {
        ext_at(pairs.drop_last(), k).add(
            if pairs.last().0 == k {
                pairs.last().1@
            } else {
                TypedI::zero()
            },
        )
    }
}

/// Whether some breakdown entry carries the key `k`.
pub open spec fn has_key(pairs: Seq<(FileTypeExt, TypedStats)>, k: FileTypeExt) -> bool
    decreases pairs.len(),
{
    if pairs.len() == 0 {
        false
    } else {
        has_key(pairs.drop_last(), k) || pairs.last().0 == k
    }
}

/// A key is present exactly when some entry's index carries it.
pub proof fn lemma_has_key_index(pairs: Seq<(FileTypeExt, TypedStats)>, k: FileTypeExt)
    ensures
        has_key(pairs, k) <==> exists|i: int| 0 <= i < pairs.len() && pairs[i].0 == k,
    decreases pairs.len(),
{
    if pairs.len() > 0 {
        lemma_has_key_index(pairs.drop_last(), k);
        if has_key(pairs, k) {
            if pairs.last().0 == k {
                assert(pairs[pairs.len() - 1].0 == k);
            } else {
                let w = choose|w: int|
                    0 <= w < pairs.drop_last().len() && pairs.drop_last()[w].0 == k;
                assert(pairs[w].0 == k);
            }
        }
        if exists|i: int| 0 <= i < pairs.len() && pairs[i].0 == k {
            let w = choose|w: int| 0 <= w < pairs.len() && pairs[w].0 == k;
            if w < pairs.len() - 1 {
                assert(pairs.drop_last()[w].0 == k);
            }
        }
    }
}

/// No two breakdown entries carry the same key.
pub open spec fn unique_keys(pairs: Seq<(FileTypeExt, TypedStats)>) -> bool {
    forall|i: int, j: int| 0 <= i < j < pairs.len() ==> pairs[i].0 != pairs[j].0
}

/// The invariant of `NodeStats`: breakdown keys are mutually exclusive and
/// the breakdown values sum to `total`.
pub open spec fn model_wf(m: StatsModel) -> bool {
    unique_keys(m.by_ext) && sum_values(m.by_ext) == m.total@
}

/// Appending a breakdown entry adds its value to the sum.
pub proof fn lemma_sum_values_push(s: Seq<(FileTypeExt, TypedStats)>, p: (FileTypeExt, TypedStats))
    ensures
        sum_values(s.push(p)) == sum_values(s).add(p.1@),
{
    assert(s.push(p).drop_last() =~= s);
}

/// Replacing one breakdown entry's value shifts the sum by the difference.
pub proof fn lemma_sum_values_update(
    s: Seq<(FileTypeExt, TypedStats)>,
    i: int,
    p: (FileTypeExt, TypedStats),
)
    requires
        0 <= i < s.len(),
    ensures
        sum_values(s.update(i, p)) == sum_values(s).add(p.1@).sub(s[i].1@),
    decreases s.len(),
{
    let t = s.update(i, p);
    if i == s.len() - 1 {
        assert(t.drop_last() =~= s.drop_last());
    } else {
        assert(t.drop_last() =~= s.drop_last().update(i, p));
        lemma_sum_values_update(s.drop_last(), i, p);
    }
}

/// Appending a breakdown entry adds its value to the per-key sum of its key
/// and leaves every other key's sum unchanged.
pub proof fn lemma_ext_at_push(
    s: Seq<(FileTypeExt, TypedStats)>,
    p: (FileTypeExt, TypedStats),
    k: FileTypeExt,
)
    ensures
        ext_at(s.push(p), k) == ext_at(s, k).add(
            if p.0 == k {
                p.1@
            } else {
                TypedI::zero()
            },
        ),
{
    assert(s.push(p).drop_last() =~= s);
}

/// Replacing one breakdown entry's value, keeping its key, shifts the per-key
/// sum of that key by the difference and leaves every other key unchanged.
pub proof fn lemma_ext_at_update(
    s: Seq<(FileTypeExt, TypedStats)>,
    i: int,
    p: (FileTypeExt, TypedStats),
    k: FileTypeExt,
)
    requires
        0 <= i < s.len(),
    ensures
        ext_at(s.update(i, p), k) == if s[i].0 == k && p.0 == k {
            ext_at(s, k).add(p.1@).sub(s[i].1@)
        } else if s[i].0 == k {
            ext_at(s, k).sub(s[i].1@)
        } else if p.0 == k {
            ext_at(s, k).add(p.1@)
        } else {
            ext_at(s, k)
        },
    decreases s.len(),
{
    let t = s.update(i, p);
    if i == s.len() - 1 {
        assert(t.drop_last() =~= s.drop_last());
    } else {
        assert(t.drop_last() =~= s.drop_last().update(i, p));
        lemma_ext_at_update(s.drop_last(), i, p, k);
    }
}

/// A key nobody carries sums to zero.
pub proof fn lemma_ext_at_absent(s: Seq<(FileTypeExt, TypedStats)>, k: FileTypeExt)
    requires
        !has_key(s, k),
    ensures
        ext_at(s, k) == TypedI::zero(),
    decreases s.len(),
{
    if s.len() > 0 {
        assert(!has_key(s.drop_last(), k));
        lemma_ext_at_absent(s.drop_last(), k);
    }
}

/// With unique keys, the per-key sum of an entry's key is that entry's value.
pub proof fn lemma_ext_at_unique(s: Seq<(FileTypeExt, TypedStats)>, i: int)
    requires
        unique_keys(s),
        0 <= i < s.len(),
    ensures
        ext_at(s, s[i].0) == s[i].1@,
    decreases s.len(),
{
    if i == s.len() - 1 {
        assert(!has_key(s.drop_last(), s[i].0)) by {
            lemma_has_key_index(s.drop_last(), s[i].0);
            assert(forall|a: int|
                0 <= a < s.drop_last().len() ==> #[trigger] s.drop_last()[a].0 != s[i].0);
        }
        lemma_ext_at_absent(s.drop_last(), s[i].0);
    } else {
        assert(s.drop_last()[i] == s[i]);
        lemma_ext_at_unique(s.drop_last(), i);
    }
}

/// Every per-key sum is bounded by the sum over all entries.
pub proof fn lemma_ext_at_le_sum_values(s: Seq<(FileTypeExt, TypedStats)>, k: FileTypeExt)
    ensures
        ext_at(s, k).le(sum_values(s)),
        ext_at(s, k).nonneg(),
        sum_values(s).nonneg(),
    decreases s.len(),
{
    if s.len() > 0 {
        lemma_ext_at_le_sum_values(s.drop_last(), k);
    }
}

/// Replacing an entry's value, keeping its key, changes no key's presence.
pub proof fn lemma_has_key_update(
    s: Seq<(FileTypeExt, TypedStats)>,
    i: int,
    p: (FileTypeExt, TypedStats),
    k: FileTypeExt,
)
    requires
        0 <= i < s.len(),
        s[i].0 == p.0,
    ensures
        has_key(s.update(i, p), k) <==> has_key(s, k),
    decreases s.len(),
{
    let t = s.update(i, p);
    if i == s.len() - 1 {
        assert(t.drop_last() =~= s.drop_last());
    } else {
        assert(t.drop_last() =~= s.drop_last().update(i, p));
        lemma_has_key_update(s.drop_last(), i, p, k);
    }
}

/// Appending an entry adds exactly its key's presence.
pub proof fn lemma_has_key_push(
    s: Seq<(FileTypeExt, TypedStats)>,
    p: (FileTypeExt, TypedStats),
    k: FileTypeExt,
)
    ensures
        has_key(s.push(p), k) <==> has_key(s, k) || p.0 == k,
{
    assert(s.push(p).drop_last() =~= s);
}

/// Extending a prefix of entries by one adds exactly that entry's key.
pub proof fn lemma_has_key_subrange_succ(
    s: Seq<(FileTypeExt, TypedStats)>,
    j: int,
    k: FileTypeExt,
)
    requires
        0 <= j < s.len(),
    ensures
        has_key(s.subrange(0, j + 1), k) <==> has_key(s.subrange(0, j), k) || s[j].0 == k,
{
    assert(s.subrange(0, j + 1).drop_last() =~= s.subrange(0, j));
}

/// A one-entry breakdown whose value is the total satisfies the invariant.
pub proof fn lemma_singleton_wf(t: TypedStats, k: FileTypeExt)
    ensures
        model_wf(StatsModel { total: t, by_ext: seq![(k, t)] }),
{
    let s: Seq<(FileTypeExt, TypedStats)> = seq![(k, t)];
    let empty = Seq::<(FileTypeExt, TypedStats)>::empty();
    assert(s.drop_last() =~= empty);
    assert(sum_values(empty) == TypedI::zero());
    assert(sum_values(s) == sum_values(empty).add(t@));
}

/// Leaf statistics always satisfy the `NodeStats` invariant.
pub proof fn lemma_leaf_stats_wf(n: Node)
    requires
        !(n is Dir),
    ensures
        n.stats_wf(),
{
    match n {
        Node::File { extension, size, .. } => {
            lemma_singleton_wf(file_typed(size), FileTypeExt::File(extension));
        },
        Node::Dir { .. } => {},
        Node::Link { size, .. } => {
            lemma_singleton_wf(other_typed(size), FileTypeExt::Link);
        },
        Node::Error { .. } => {
            lemma_singleton_wf(error_typed(), FileTypeExt::Error);
        },
        Node::BlockDevice { size, .. } => {
            lemma_singleton_wf(other_typed(size), FileTypeExt::BlockDevice);
        },
        Node::CharDevice { size, .. } => {
            lemma_singleton_wf(other_typed(size), FileTypeExt::CharDevice);
        },
        Node::NamedPipe { size, .. } => {
            lemma_singleton_wf(other_typed(size), FileTypeExt::NamedPipe);
        },
        Node::UnixSocket { size, .. } => {
            lemma_singleton_wf(other_typed(size), FileTypeExt::UnixSocket);
        },
        Node::Other { extension, size, .. } => {
            lemma_singleton_wf(other_typed(size), FileTypeExt::Other(extension));
        },
    }
}

} // verus!
