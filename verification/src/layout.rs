//! Finding the data segment that covers an address, and taking space from
//! the initial stack.
//!
//! The stack grows toward lower addresses from the value of the global
//! [`STACK_POINTER`]. Lowering that value frees the addresses between the new
//! value and the old one; the module's code never touches them, so they can
//! hold data.

use vstd::prelude::*;
use vstd::string::*;
use crate::error::{ConfigError, LayoutError};
use crate::module::{Data, DataKind, DataView, GlobalKind, GlobalView, ModuleModel, ModuleView};
use crate::text::str_eq;

verus! {

/// The name of the global that holds the top of the initial stack.
pub const STACK_POINTER: &'static str = "__stack_pointer";

/// The stack moves by multiples of this many bytes.
pub const STACK_ALIGNMENT: u32 = 8;

/// The address a segment starts at, where it has a fixed one.
pub open spec fn start_of(segment: DataView) -> int {
    match segment.kind {
        DataKind::Absolute(start) => start as int,
        _ => 0,
    }
}

/// Whether the segment has a fixed start, at `address` or below it.
pub open spec fn starts_at_or_below(segment: DataView, address: u32) -> bool {
    segment.kind matches DataKind::Absolute(start) && start <= address
}

/// Whether the segment fills `address`: it starts at a fixed address at or
/// below it and holds a byte for it.
pub open spec fn fills(segment: DataView, address: int) -> bool {
    segment.kind matches DataKind::Absolute(start) && start <= address < start
        + segment.value.len()
}

/// Whether the segments are apart: no address is filled by two of them.
pub open spec fn disjoint(data: Seq<DataView>) -> bool {
    forall|i: int, j: int, address: int|
        0 <= i < data.len() && 0 <= j < data.len() && i != j && #[trigger] fills(data[i], address)
            ==> !#[trigger] fills(data[j], address)
}

/// The top of the initial stack, where the stack global says it.
pub open spec fn stack_top(globals: Seq<GlobalView>) -> int {
    match find_global(globals, STACK_POINTER@) {
        Some(i) => match globals[i].kind {
            GlobalKind::Const(top) => top as int,
            _ => 0,
        },
        None => 0,
    }
}

/// Whether `i` is the first segment that is placed at an address that is
/// not a plain constant.
pub open spec fn first_floating(data: Seq<DataView>, i: int) -> bool {
    &&& 0 <= i < data.len()
    &&& data[i].kind is Computed
    &&& forall|j: int| 0 <= j < i ==> !((#[trigger] data[j]).kind is Computed)
}

/// Whether `i` is the segment that covers `address`: of the segments that
/// start at `address` or below it, the one that starts highest, and of
/// several that start there, the first.
pub open spec fn covers(data: Seq<DataView>, address: u32, i: int) -> bool {
    &&& 0 <= i < data.len()
    &&& starts_at_or_below(data[i], address)
    &&& forall|j: int|
        0 <= j < data.len() && starts_at_or_below(#[trigger] data[j], address) ==> start_of(data[j])
            < start_of(data[i]) || (start_of(data[j]) == start_of(data[i]) && i <= j)
}

/// The segment that covers `address` and the offset of `address` in it.
///
/// There is none where a segment floats, because it is then unknown what
/// that segment covers, and none where no segment starts at `address` or
/// below it.
pub open spec fn locate(data: Seq<DataView>, address: u32) -> Result<(int, int), LayoutError> {
    if exists|i: int| first_floating(data, i) {
        Err(
            LayoutError::FloatingSegment {
                segment: (choose|i: int| first_floating(data, i)) as usize,
            },
        )
    } else if exists|i: int| covers(data, address, i) {
        let i = choose|i: int| covers(data, address, i);
        Ok((i, address - start_of(data[i])))
    } else {
        Err(LayoutError::Unlocatable { address })
    }
}

/// Whether `i` is the first global with this name.
pub open spec fn first_named(globals: Seq<GlobalView>, name: Seq<char>, i: int) -> bool {
    &&& 0 <= i < globals.len()
    &&& globals[i].name == Some(name)
    &&& forall|j: int| 0 <= j < i ==> (#[trigger] globals[j]).name != Some(name)
}

/// The position of the first global with this name.
pub open spec fn find_global(globals: Seq<GlobalView>, name: Seq<char>) -> Option<int> {
    if exists|i: int| first_named(globals, name, i) {
        Some(choose|i: int| first_named(globals, name, i))
    } else {
        None
    }
}

/// What taking `amount` bytes from the stack gives: the position of the
/// stack global and its new value, which is the lowest address of the freed
/// space.
pub open spec fn reserve(globals: Seq<GlobalView>, amount: u32) -> Result<(int, i32), LayoutError> {
    if amount % STACK_ALIGNMENT != 0 {
        Err(LayoutError::Misaligned { amount })
    } else {
        match find_global(globals, STACK_POINTER@) {
            None => Err(LayoutError::MissingStackGlobal),
            Some(i) => match globals[i].kind {
                GlobalKind::Const(top) => if amount > top {
                    Err(LayoutError::StackTooSmall { top, amount })
                } else {
                    Ok((i, (top - amount) as i32))
                },
                _ => Err(LayoutError::StackNotConstant { global: i as usize }),
            },
        }
    }
}

/// The module with the value of one global replaced by a constant.
pub open spec fn with_global(module: ModuleView, i: int, value: i32) -> ModuleView {
    ModuleView {
        globals: module.globals.update(
            i,
            GlobalView { kind: GlobalKind::Const(value), ..module.globals[i] },
        ),
        ..module
    }
}

/// At most one segment covers an address.
pub proof fn lemma_covers_unique(data: Seq<DataView>, address: u32, i: int, j: int)
    requires
        covers(data, address, i),
        covers(data, address, j),
    ensures
        i == j,
{
}

/// The segment that covers an address is one of the segments, and the
/// address does not lie below its start.
pub proof fn lemma_locate_in_range(data: Seq<DataView>, address: u32)
    ensures
        locate(data, address) matches Ok((i, offset)) ==> 0 <= i < data.len() && 0 <= offset
            && offset == address - start_of(data[i]),
{
}

/// At most one segment is the first that floats.
pub proof fn lemma_first_floating_unique(data: Seq<DataView>, i: int, j: int)
    requires
        first_floating(data, i),
        first_floating(data, j),
    ensures
        i == j,
{
    if i < j {
        assert(!(data[i].kind is Computed));
    } else if j < i {
        assert(!(data[j].kind is Computed));
    }
}

/// Whether the segments of `a` and `b` are placed alike, one by one.
pub open spec fn same_placement(a: Seq<DataView>, b: Seq<DataView>) -> bool {
    &&& a.len() == b.len()
    &&& forall|i: int| 0 <= i < a.len() ==> (#[trigger] a[i]).kind == b[i].kind
}

/// Whether the globals of `a` and `b` are the same but for the values of
/// those that are constants.
pub open spec fn same_globals(a: Seq<GlobalView>, b: Seq<GlobalView>) -> bool {
    &&& a.len() == b.len()
    &&& forall|i: int|
        0 <= i < a.len() ==> (#[trigger] a[i]).name == b[i].name && (a[i].kind == b[i].kind || (
        a[i].kind is Const && b[i].kind is Const))
}

/// Which segment covers an address depends on where the segments are placed
/// and not on the bytes they hold.
pub proof fn lemma_locate_by_placement(a: Seq<DataView>, b: Seq<DataView>, address: u32)
    requires
        same_placement(a, b),
    ensures
        locate(a, address) == locate(b, address),
{
    assert forall|i: int| first_floating(a, i) == first_floating(b, i) by {
        if first_floating(a, i) {
            assert forall|j: int| 0 <= j < i implies !((#[trigger] b[j]).kind is Computed) by {
                assert(a[j].kind == b[j].kind);
            }
        }
        if first_floating(b, i) {
            assert(a[i].kind == b[i].kind);
            assert forall|j: int| 0 <= j < i implies !((#[trigger] a[j]).kind is Computed) by {
                assert(a[j].kind == b[j].kind);
            }
        }
    }
    assert forall|i: int| covers(a, address, i) == covers(b, address, i) by {
        if covers(a, address, i) {
            assert forall|j: int|
                0 <= j < b.len() && starts_at_or_below(#[trigger] b[j], address) implies start_of(
                b[j],
            ) < start_of(b[i]) || (start_of(b[j]) == start_of(b[i]) && i <= j) by {
                assert(a[j].kind == b[j].kind);
                assert(starts_at_or_below(a[j], address));
            }
        }
        if covers(b, address, i) {
            assert(a[i].kind == b[i].kind);
            assert forall|j: int|
                0 <= j < a.len() && starts_at_or_below(#[trigger] a[j], address) implies start_of(
                a[j],
            ) < start_of(a[i]) || (start_of(a[j]) == start_of(a[i]) && i <= j) by {
                assert(a[j].kind == b[j].kind);
                assert(starts_at_or_below(b[j], address));
            }
        }
    }
    if exists|i: int| first_floating(a, i) {
        let x = choose|i: int| first_floating(a, i);
        assert(first_floating(b, x));
        let y = choose|i: int| first_floating(b, i);
        assert(first_floating(a, y));
        lemma_first_floating_unique(a, x, y);
    } else if exists|i: int| covers(a, address, i) {
        let x = choose|i: int| covers(a, address, i);
        assert(covers(b, address, x));
        let y = choose|i: int| covers(b, address, i);
        assert(covers(a, address, y));
        lemma_covers_unique(a, address, x, y);
        assert(a[x].kind == b[x].kind);
    }
}

/// The address at which the segment starts, or nothing where it is passive.
///
/// Fails where the segment is active and its address is not a plain
/// constant; `segment` is the position that the failure then names.
pub fn get_active_data_start(data: &Data, segment: usize) -> (start: Result<Option<u32>, ConfigError>)
    ensures
        match data.kind {
            DataKind::Absolute(address) => start matches Ok(Some(s)) && s == address,
            DataKind::Passive => start matches Ok(None),
            DataKind::Computed => start matches Err(e) && e == ConfigError::Layout(
                LayoutError::FloatingSegment { segment },
            ),
        },
{
    match data.kind {
        DataKind::Absolute(address) => Ok(Some(address)),
        DataKind::Passive => Ok(None),
        DataKind::Computed => Err(ConfigError::Layout(LayoutError::FloatingSegment { segment })),
    }
}

impl ModuleModel {
    /// Finds the segment that covers `address`, and the offset of `address`
    /// from the start of that segment. The offset may lie past the end of
    /// the segment's bytes.
    pub fn get_active_data_segment(&self, address: u32) -> (found: Result<(usize, usize), ConfigError>)
        ensures
            match locate(self@.data, address) {
                Ok((i, offset)) => found matches Ok(at) && at.0 == i && at.1 == offset,
                Err(e) => found matches Err(f) && f == ConfigError::Layout(e),
            },
    {
        let ghost data = self@.data;
        let mut best: Option<(usize, u32)> = None;
        let mut i: usize = 0;
        while i < self.data.len()
            invariant
                i <= self.data.len(),
                data == self@.data,
                data.len() == self.data.len(),
                forall|j: int| 0 <= j < i ==> !((#[trigger] data[j]).kind is Computed),
                match best {
                    None => forall|j: int|
                        0 <= j < i ==> !starts_at_or_below(#[trigger] data[j], address),
                    Some((b, start)) => {
                        &&& b < i
                        &&& data[b as int].kind == DataKind::Absolute(start)
                        &&& start <= address
                        &&& forall|j: int|
                            0 <= j < i && starts_at_or_below(#[trigger] data[j], address)
                                ==> start_of(data[j]) < start || (start_of(data[j]) == start && b
                                <= j)
                    },
                },
            decreases self.data.len() - i,
        {
            assert(data[i as int].kind == self.data[i as int].kind);
            match get_active_data_start(&self.data[i], i) {
                Err(e) => {
                    assert(first_floating(data, i as int));
                    let ghost first = choose|k: int| first_floating(data, k);
                    assert(first == i) by {
                        if first < i {
                            assert(!(data[first].kind is Computed));
                        } else if first > i {
                            assert(!(data[i as int].kind is Computed));
                        }
                    }
                    return Err(e);
                },
                Ok(None) => {},
                Ok(Some(start)) => {
                    if start <= address {
                        let better = match best {
                            Some((_, other)) => start > other,
                            None => true,
                        };
                        if better {
                            best = Some((i, start));
                        }
                    }
                },
            }
            i = i + 1;
        }
        assert(!exists|k: int| first_floating(data, k));
        match best {
            None => {
                assert(!exists|k: int| covers(data, address, k));
                Err(ConfigError::Layout(LayoutError::Unlocatable { address }))
            },
            Some((b, start)) => {
                assert(covers(data, address, b as int));
                proof {
                    let chosen = choose|k: int| covers(data, address, k);
                    lemma_covers_unique(data, address, chosen, b as int);
                }
                Ok((b, (address - start) as usize))
            },
        }
    }

    /// The position of the first global with this name.
    pub fn find_global(&self, name: &str) -> (found: Option<usize>)
        ensures
            match find_global(self@.globals, name@) {
                Some(i) => found == Some(i as usize) && i < self.globals.len(),
                None => found is None,
            },
    {
        let ghost globals = self@.globals;
        let mut i: usize = 0;
        while i < self.globals.len()
            invariant
                i <= self.globals.len(),
                globals == self@.globals,
                globals.len() == self.globals.len(),
                forall|j: int| 0 <= j < i ==> (#[trigger] globals[j]).name != Some(name@),
            decreases self.globals.len() - i,
        {
            assert(globals[i as int] == self.globals[i as int]@);
            let hit = match &self.globals[i].name {
                Some(n) => str_eq(n.as_str(), name),
                None => false,
            };
            if hit {
                assert(first_named(globals, name@, i as int));
                proof {
                    let chosen = choose|k: int| first_named(globals, name@, k);
                    if chosen < i {
                        assert(globals[chosen].name != Some(name@));
                    } else if chosen > i {
                        assert(globals[i as int].name != Some(name@));
                    }
                }
                return Some(i);
            }
            i = i + 1;
        }
        assert(!exists|k: int| first_named(globals, name@, k));
        None
    }

    /// Lowers the top of the initial stack by `amount` bytes and returns the
    /// new top: the lowest address of the space that this frees.
    ///
    /// Fails, and changes nothing, where `amount` is not a multiple of
    /// eight, where no global is named [`STACK_POINTER`], where the first
    /// such global is not a plain constant, and where that constant is lower
    /// than `amount`. So the top never falls below zero.
    pub fn bump_stack_global(&mut self, amount: u32) -> (base: Result<u32, ConfigError>)
        ensures
            match reserve(old(self)@.globals, amount) {
                Ok((i, top)) => {
                    &&& base matches Ok(b)
                    &&& b == top
                    &&& 0 <= top
                    &&& final(self)@ == with_global(old(self)@, i, top)
                },
                Err(e) => {
                    &&& base matches Err(f)
                    &&& f == ConfigError::Layout(e)
                    &&& *final(self) == *old(self)
                },
            },
            amount > stack_top(old(self)@.globals) ==> base is Err,
    {
        if amount % STACK_ALIGNMENT != 0 {
            return Err(ConfigError::Layout(LayoutError::Misaligned { amount }));
        }
        let i = match self.find_global(STACK_POINTER) {
            Some(i) => i,
            None => { return Err(ConfigError::Layout(LayoutError::MissingStackGlobal)); },
        };
        assert(self@.globals[i as int] == self.globals[i as int]@);
        let top = match self.globals[i].kind {
            GlobalKind::Const(top) => top,
            _ => { return Err(ConfigError::Layout(LayoutError::StackNotConstant { global: i })); },
        };
        if top < 0 || amount > top as u32 {
            return Err(ConfigError::Layout(LayoutError::StackTooSmall { top, amount }));
        }
        let lowered: i32 = top - amount as i32;
        self.globals[i].kind = GlobalKind::Const(lowered);
        assert(self@.globals =~= with_global(old(self)@, i as int, lowered).globals);
        assert(self@.data =~= old(self)@.data);
        assert(self@.customs =~= old(self)@.customs);
        Ok(lowered as u32)
    }
}

} // verus!
