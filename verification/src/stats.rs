//! Value types for per-entry and aggregated size statistics, together with
//! their mathematical (unbounded integer) counterparts used in contracts.

use vstd::prelude::*;

verus! {

/// Size of one filesystem entry, in bytes: `content` is the apparent byte
/// length, `real` the storage actually consumed on disk.
#[derive(Debug, Clone, Copy, PartialEq, Eq, Structural)]
pub struct Size {
    pub real: u64,
    pub content: u64,
}

/// Count of entries together with their summed sizes.
#[derive(Debug, Clone, Copy, PartialEq, Eq, Structural)]
pub struct AggStats {
    pub count: usize,
    pub size: Size,
}

/// Aggregates broken down by entry type, plus a count of unreadable entries.
#[derive(Debug, Clone, Copy, PartialEq, Eq, Structural)]
pub struct TypedStats {
    pub files: AggStats,
    pub dirs: AggStats,
    pub others: AggStats,
    pub errors: usize,
}

/// Mathematical counterpart of `Size`.
pub struct SizeI {
    pub real: int,
    pub content: int,
}

/// Mathematical counterpart of `AggStats`.
pub struct AggI {
    pub count: int,
    pub size: SizeI,
}

/// Mathematical counterpart of `TypedStats`.
pub struct TypedI {
    pub files: AggI,
    pub dirs: AggI,
    pub others: AggI,
    pub errors: int,
}

impl View for Size {
    type V = SizeI;

    open spec fn view(&self) -> SizeI {
        SizeI { real: self.real as int, content: self.content as int }
    }
}

impl View for AggStats {
    type V = AggI;

    open spec fn view(&self) -> AggI {
        AggI { count: self.count as int, size: self.size@ }
    }
}

impl View for TypedStats {
    type V = TypedI;

    open spec fn view(&self) -> TypedI {
        TypedI {
            files: self.files@,
            dirs: self.dirs@,
            others: self.others@,
            errors: self.errors as int,
        }
    }
}

impl SizeI {
    pub open spec fn zero() -> SizeI {
        SizeI { real: 0, content: 0 }
    }

    pub open spec fn add(self, o: SizeI) -> SizeI {
        SizeI { real: self.real + o.real, content: self.content + o.content }
    }

    pub open spec fn sub(self, o: SizeI) -> SizeI {
        SizeI { real: self.real - o.real, content: self.content - o.content }
    }

    pub open spec fn le(self, o: SizeI) -> bool {
        self.real <= o.real && self.content <= o.content
    }

    pub open spec fn nonneg(self) -> bool {
        0 <= self.real && 0 <= self.content
    }

    pub open spec fn in_bounds(self) -> bool {
        0 <= self.real <= u64::MAX && 0 <= self.content <= u64::MAX
    }
}

impl AggI {
    pub open spec fn zero() -> AggI {
        AggI { count: 0, size: SizeI::zero() }
    }

    pub open spec fn add(self, o: AggI) -> AggI {
        AggI { count: self.count + o.count, size: self.size.add(o.size) }
    }

    pub open spec fn sub(self, o: AggI) -> AggI {
        AggI { count: self.count - o.count, size: self.size.sub(o.size) }
    }

    pub open spec fn le(self, o: AggI) -> bool {
        self.count <= o.count && self.size.le(o.size)
    }

    pub open spec fn nonneg(self) -> bool {
        0 <= self.count && self.size.nonneg()
    }

    pub open spec fn in_bounds(self) -> bool {
        0 <= self.count <= usize::MAX && self.size.in_bounds()
    }
}

impl TypedI {
    pub open spec fn zero() -> TypedI {
        TypedI { files: AggI::zero(), dirs: AggI::zero(), others: AggI::zero(), errors: 0 }
    }

    pub open spec fn add(self, o: TypedI) -> TypedI {
        TypedI {
            files: self.files.add(o.files),
            dirs: self.dirs.add(o.dirs),
            others: self.others.add(o.others),
            errors: self.errors + o.errors,
        }
    }

    pub open spec fn sub(self, o: TypedI) -> TypedI {
        TypedI {
            files: self.files.sub(o.files),
            dirs: self.dirs.sub(o.dirs),
            others: self.others.sub(o.others),
            errors: self.errors - o.errors,
        }
    }

    pub open spec fn le(self, o: TypedI) -> bool {
        self.files.le(o.files) && self.dirs.le(o.dirs) && self.others.le(o.others)
            && self.errors <= o.errors
    }

    pub open spec fn nonneg(self) -> bool {
        self.files.nonneg() && self.dirs.nonneg() && self.others.nonneg() && 0 <= self.errors
    }

    pub open spec fn in_bounds(self) -> bool {
        self.files.in_bounds() && self.dirs.in_bounds() && self.others.in_bounds()
            && 0 <= self.errors <= usize::MAX
    }
}

impl Size {
    /// Component-wise sum of two sizes.
    pub fn add(self, o: Size) -> (r: Size)
        requires
            self@.add(o@).in_bounds(),
        ensures
            r@ == self@.add(o@),
    {
        Size { real: self.real + o.real, content: self.content + o.content }
    }
}

impl Size {
    /// Component-wise sum, or `None` when it cannot be represented.
    pub fn checked_add(self, o: Size) -> (r: Option<Size>)
        ensures
            r is Some <==> self@.add(o@).in_bounds(),
            r is Some ==> r->0@ == self@.add(o@),
    {
        match (self.real.checked_add(o.real), self.content.checked_add(o.content)) {
            (Some(re), Some(co)) => Some(Size { real: re, content: co }),
            _ => None,
        }
    }
}

impl Default for Size {
    fn default() -> (r: Size)
        ensures
            r@ == SizeI::zero(),
    {
        Size { real: 0, content: 0 }
    }
}

impl AggStats {
    /// Component-wise sum of two aggregates.
    pub fn add(self, o: AggStats) -> (r: AggStats)
        requires
            self@.add(o@).in_bounds(),
        ensures
            r@ == self@.add(o@),
    {
        AggStats { count: self.count + o.count, size: self.size.add(o.size) }
    }
}

impl AggStats {
    /// Component-wise sum, or `None` when it cannot be represented.
    pub fn checked_add(self, o: AggStats) -> (r: Option<AggStats>)
        ensures
            r is Some <==> self@.add(o@).in_bounds(),
            r is Some ==> r->0@ == self@.add(o@),
    {
        match (self.count.checked_add(o.count), self.size.checked_add(o.size)) {
            (Some(count), Some(size)) => Some(AggStats { count, size }),
            _ => None,
        }
    }
}

impl Default for AggStats {
    fn default() -> (r: AggStats)
        ensures
            r@ == AggI::zero(),
    {
        AggStats { count: 0, size: Size { real: 0, content: 0 } }
    }
}

impl TypedStats {
    /// Component-wise sum of two typed aggregates.
    pub fn add(self, o: TypedStats) -> (r: TypedStats)
        requires
            self@.add(o@).in_bounds(),
        ensures
            r@ == self@.add(o@),
    {
        TypedStats {
            files: self.files.add(o.files),
            dirs: self.dirs.add(o.dirs),
            others: self.others.add(o.others),
            errors: self.errors + o.errors,
        }
    }
}

impl TypedStats {
    /// Component-wise sum, or `None` when it cannot be represented.
    pub fn checked_add(self, o: TypedStats) -> (r: Option<TypedStats>)
        ensures
            r is Some <==> self@.add(o@).in_bounds(),
            r is Some ==> r->0@ == self@.add(o@),
    {
        match (
            self.files.checked_add(o.files),
            self.dirs.checked_add(o.dirs),
            self.others.checked_add(o.others),
            self.errors.checked_add(o.errors),
        ) {
            (Some(files), Some(dirs), Some(others), Some(errors)) => Some(
                TypedStats { files, dirs, others, errors },
            ),
            _ => None,
        }
    }
}

impl Default for TypedStats {
    fn default() -> (r: TypedStats)
        ensures
            r@ == TypedI::zero(),
    {
        TypedStats {
            files: AggStats { count: 0, size: Size { real: 0, content: 0 } },
            dirs: AggStats { count: 0, size: Size { real: 0, content: 0 } },
            others: AggStats { count: 0, size: Size { real: 0, content: 0 } },
            errors: 0,
        }
    }
}

} // verus!
