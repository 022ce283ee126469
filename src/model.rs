use vstd::prelude::*;

verus! {

/// The DWARF tags that the layout logic tells apart.
#[derive(Clone, Copy, Debug, PartialEq, Eq, Structural)]
pub enum Tag {
    ClassType,
    StructureType,
    UnionType,
    EnumerationType,
    BaseType,
    PointerType,
    Typedef,
    Member,
    Inheritance,
    /// Any other tag, by its DWARF number.
    Other(u16),
}

/// The value of an attribute, in the forms the layout logic reads.
#[derive(Clone, Copy, Debug, PartialEq, Eq, Structural)]
pub enum AttrValue {
    /// An unsigned constant.
    Udata(u64),
    /// A reference relative to the start of the entry's own unit.
    UnitRef(u64),
    /// A reference relative to the start of the `.debug_info` section.
    DebugInfoRef(u64),
    /// Any other form.
    Other,
}

/// One debugging information entry.
#[derive(Clone, Debug)]
pub struct Entry {
    /// Offset of the entry, relative to the start of its unit.
    pub offset: u64,
    /// Depth in the unit's tree; the unit's root entry has depth 0.
    pub depth: usize,
    pub tag: Tag,
    /// `DW_AT_name`, already read from the string tables.
    pub name: Option<String>,
    /// `DW_AT_byte_size`.
    pub byte_size: Option<AttrValue>,
    /// `DW_AT_data_member_location`.
    pub member_location: Option<AttrValue>,
    /// `DW_AT_type`.
    pub type_ref: Option<AttrValue>,
}

/// One compilation unit: where it lies in `.debug_info` and its entries
/// in depth-first order.
#[derive(Clone, Debug)]
pub struct Unit {
    /// Offset of the unit header in `.debug_info`.
    pub offset: u64,
    /// Size of the unit header, in bytes.
    pub header_size: u64,
    /// Size of the whole unit, header included, in bytes.
    pub length: u64,
    pub entries: Vec<Entry>,
}

/// All compilation units of one image, so that references into any unit
/// can be resolved.
#[derive(Clone, Debug)]
pub struct DwarfUnits {
    units: Vec<Unit>,
    /// Size of a pointer, used for pointer types without a byte size.
    pointer_size: u64,
    /// Bound on the length of a chain of type references that is
    /// followed: the number of entries, as a longer chain can only be a
    /// cycle.
    max_chain: u64,
}

/// A handle on one entry: the index of its unit and its index there.
#[derive(Clone, Copy, Debug, PartialEq, Eq, Structural)]
pub struct ContextEntry {
    pub unit: usize,
    pub index: usize,
}

/// Malformed debug information met while laying out classes.
#[derive(Clone, Copy, Debug, PartialEq, Eq, Structural)]
pub enum LayoutError {
    /// A `DW_AT_byte_size` that is not an unsigned constant.
    InvalidByteSize,
    /// A `DW_AT_data_member_location` that is not an unsigned constant.
    InvalidMemberLocation,
    /// A `DW_AT_type` that is not a reference.
    InvalidTypeReference,
    /// A `.debug_info` reference that no unit holds.
    UnresolvedReference,
    /// A reference to an offset at which no entry starts.
    NoEntryAtOffset,
    /// A typedef, or a printed field, without a `DW_AT_type`.
    MissingType,
    /// A chain of type references longer than the number of entries.
    TypeChainTooLong,
    /// A selected class without a name.
    UnnamedClass,
    /// A unit without a root entry.
    MissingRootEntry,
}

/// Number of entries in the given units.
pub open spec fn total_entries(us: Seq<Unit>) -> nat
    decreases us.len(),
{
    if us.len() == 0 {
        0
    } else {
        total_entries(us.drop_last()) + us.last().entries@.len()
    }
}

impl DwarfUnits {
    /// The units, in order.
    pub closed spec fn units_seq(&self) -> Seq<Unit> {
        self.units@
    }

    /// The size of a pointer.
    pub closed spec fn pointer_width(&self) -> u64 {
        self.pointer_size
    }

    /// The bound on followed chains of type references.
    pub closed spec fn chain_bound(&self) -> u64 {
        self.max_chain
    }

    /// The entries of unit `u`.
    pub open spec fn entries(&self, u: int) -> Seq<Entry> {
        self.units_seq()[u].entries@
    }

    /// `c` names an entry that exists.
    pub open spec fn valid(&self, c: ContextEntry) -> bool {
        c.unit < self.units_seq().len() && c.index < self.units_seq()[c.unit as int].entries@.len()
    }

    /// The entry that `c` names.
    pub open spec fn entry(&self, c: ContextEntry) -> Entry {
        self.units_seq()[c.unit as int].entries@[c.index as int]
    }

    /// Collects the units; the bound on chains of type references is the
    /// number of entries, as no chain without a cycle is longer.
    pub fn new(units: Vec<Unit>, pointer_size: u64) -> (r: DwarfUnits)
        ensures
            r.units_seq() == units@,
            r.pointer_width() == pointer_size,
            r.chain_bound() as nat == if total_entries(units@) <= u64::MAX as nat {
                total_entries(units@)
            } else {
                u64::MAX as nat
            },
    {
        let mut total: u64 = 0;
        let mut i: usize = 0;
        while i < units.len()
            invariant
                i <= units@.len(),
                total as nat == if total_entries(units@.subrange(0, i as int)) <= u64::MAX as nat {
                    total_entries(units@.subrange(0, i as int))
                } else {
                    u64::MAX as nat
                },
            decreases units@.len() - i,
        {
            assert(units@.subrange(0, i as int + 1).drop_last() == units@.subrange(0, i as int));
            let n = units[i].entries.len() as u64;
            total = total.saturating_add(n);
            i = i + 1;
        }
        assert(units@.subrange(0, units@.len() as int) == units@);
        DwarfUnits { units, pointer_size, max_chain: total }
    }
}

impl DwarfUnits {
    /// The number of units.
    pub fn unit_count(&self) -> (r: usize)
        ensures
            r == self.units_seq().len(),
    {
        self.units.len()
    }

    /// Unit `u`.
    pub fn unit(&self, u: usize) -> (r: &Unit)
        requires
            u < self.units_seq().len(),
        ensures
            *r == self.units_seq()[u as int],
    {
        &self.units[u]
    }

    /// The size of a pointer.
    pub fn pointer_size(&self) -> (r: u64)
        ensures
            r == self.pointer_width(),
    {
        self.pointer_size
    }

    /// The bound on followed chains of type references.
    pub fn max_chain(&self) -> (r: u64)
        ensures
            r == self.chain_bound(),
    {
        self.max_chain
    }
}

} // verus!
