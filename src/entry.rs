use vstd::prelude::*;
use crate::model::{AttrValue, ContextEntry, DwarfUnits, Entry, LayoutError, Tag, Unit};

verus! {

/// The index of the first entry at or after `k` that starts at unit offset `off`.
pub open spec fn find_from(es: Seq<Entry>, off: u64, k: int) -> Option<int>
    decreases es.len() - k,
{
    if k < 0 || k >= es.len() {
        None
    } else if es[k].offset == off {
        Some(k)
    } else {
        find_from(es, off, k + 1)
    }
}

/// A `.debug_info` offset made relative to unit `u`, when it lies in the
/// unit's entries (past its header, before its end).
pub open spec fn to_unit_offset(u: Unit, g: u64) -> Option<u64> {
    if g >= u.offset && g - u.offset >= u.header_size && g - u.offset < u.length {
        Some((g - u.offset) as u64)
    } else {
        None
    }
}

/// The first unit, from index `k` on, that holds `.debug_info` offset `g`,
/// with the offset made relative to it.
pub open spec fn owner_from(us: Seq<Unit>, g: u64, k: int) -> Option<(int, u64)>
    decreases us.len() - k,
{
    if k < 0 || k >= us.len() {
        None
    } else {
        match to_unit_offset(us[k], g) {
            Some(o) => Some((k, o)),
            None => owner_from(us, g, k + 1),
        }
    }
}

/// The entry at unit offset `off` of unit `u`.
pub open spec fn entry_at(du: &DwarfUnits, u: int, off: u64) -> Result<ContextEntry, LayoutError> {
    match find_from(du.entries(u), off, 0) {
        Some(i) => Ok(ContextEntry { unit: u as usize, index: i as usize }),
        None => Err(LayoutError::NoEntryAtOffset),
    }
}

/// The entry that the `DW_AT_type` of `c` refers to, if it has one.
pub open spec fn class_of(du: &DwarfUnits, c: ContextEntry) -> Result<Option<ContextEntry>, LayoutError> {
    match du.entry(c).type_ref {
        None => Ok(None),
        Some(AttrValue::UnitRef(off)) => match entry_at(du, c.unit as int, off) {
            Ok(t) => Ok(Some(t)),
            Err(e) => Err(e),
        },
        Some(AttrValue::DebugInfoRef(g)) => match owner_from(du.units_seq(), g, 0) {
            Some((u, off)) => match entry_at(du, u, off) {
                Ok(t) => Ok(Some(t)),
                Err(e) => Err(e),
            },
            None => Err(LayoutError::UnresolvedReference),
        },
        Some(_) => Err(LayoutError::InvalidTypeReference),
    }
}

/// The size in bytes of the type that `c` describes: its `DW_AT_byte_size`,
/// or the pointer size for a pointer type without one.
pub open spec fn size_of(du: &DwarfUnits, c: ContextEntry) -> Result<Option<u64>, LayoutError> {
    match du.entry(c).byte_size {
        Some(AttrValue::Udata(n)) => Ok(Some(n)),
        Some(_) => Err(LayoutError::InvalidByteSize),
        None => if du.entry(c).tag == Tag::PointerType {
            Ok(Some(du.pointer_width()))
        } else {
            Ok(None)
        },
    }
}

/// The byte offset of member `c` inside its class.
pub open spec fn location_of(du: &DwarfUnits, c: ContextEntry) -> Result<Option<u64>, LayoutError> {
    match du.entry(c).member_location {
        Some(AttrValue::Udata(n)) => Ok(Some(n)),
        Some(_) => Err(LayoutError::InvalidMemberLocation),
        None => Ok(None),
    }
}

pub open spec fn opt_view(o: Option<String>) -> Option<Seq<char>> {
    match o {
        Some(s) => Some(s@),
        None => None,
    }
}

/// The name of `c`: its `DW_AT_name`, or for a pointer type without one,
/// the pointee's name followed by `*`. At most `fuel` pointers are followed.
pub open spec fn name_of(du: &DwarfUnits, c: ContextEntry, fuel: nat) -> Result<Option<Seq<char>>, LayoutError>
    decreases fuel,
{
    if du.entry(c).name is Some {
        Ok(opt_view(du.entry(c).name))
    } else if du.entry(c).tag != Tag::PointerType {
        Ok(None)
    } else if fuel == 0 {
        Err(LayoutError::TypeChainTooLong)
    } else {
        match class_of(du, c) {
            Err(e) => Err(e),
            Ok(None) => Ok(None),
            Ok(Some(p)) => match name_of(du, p, (fuel - 1) as nat) {
                Ok(Some(n)) => Ok(Some(n + seq!['*'])),
                other => other,
            },
        }
    }
}

/// The name of `c`, following at most as many pointers as there are entries.
pub open spec fn entry_name(du: &DwarfUnits, c: ContextEntry) -> Result<Option<Seq<char>>, LayoutError> {
    name_of(du, c, du.chain_bound() as nat)
}

/// The first entry that is no typedef on the chain of type references
/// from `c`, following at most `fuel` of them.
pub open spec fn expand_from(du: &DwarfUnits, c: ContextEntry, fuel: nat) -> Result<ContextEntry, LayoutError>
    decreases fuel,
{
    if du.entry(c).tag != Tag::Typedef {
        Ok(c)
    } else if fuel == 0 {
        Err(LayoutError::TypeChainTooLong)
    } else {
        match class_of(du, c) {
            Err(e) => Err(e),
            Ok(None) => Err(LayoutError::MissingType),
            Ok(Some(t)) => expand_from(du, t, (fuel - 1) as nat),
        }
    }
}

/// `c` with its typedefs expanded.
pub open spec fn expanded(du: &DwarfUnits, c: ContextEntry) -> Result<ContextEntry, LayoutError> {
    expand_from(du, c, du.chain_bound() as nat)
}

pub open spec fn name_result_view(r: Result<Option<String>, LayoutError>) -> Result<Option<Seq<char>>, LayoutError> {
    match r {
        Ok(o) => Ok(opt_view(o)),
        Err(e) => Err(e),
    }
}

pub proof fn lemma_find_in_range(es: Seq<Entry>, off: u64, k: int)
    ensures
        find_from(es, off, k) matches Some(i) ==> k <= i < es.len() && es[i].offset == off,
    decreases es.len() - k,
{
    if 0 <= k < es.len() && es[k].offset != off {
        lemma_find_in_range(es, off, k + 1);
    }
}

pub proof fn lemma_owner_in_range(us: Seq<Unit>, g: u64, k: int)
    ensures
        owner_from(us, g, k) matches Some((u, o)) ==> k <= u < us.len(),
    decreases us.len() - k,
{
    if 0 <= k < us.len() && to_unit_offset(us[k], g) is None {
        lemma_owner_in_range(us, g, k + 1);
    }
}

/// Looks up the entry that starts at unit offset `off` in unit `u`.
fn find_entry(du: &DwarfUnits, u: usize, off: u64) -> (r: Result<ContextEntry, LayoutError>)
    requires
        u < du.units_seq().len(),
    ensures
        r == entry_at(du, u as int, off),
        r matches Ok(t) ==> du.valid(t),
{
    let es = &du.unit(u).entries;
    let mut k: usize = 0;
    proof {
        lemma_find_in_range(es@, off, 0);
    }
    while k < es.len()
        invariant
            u < du.units_seq().len(),
            k <= es@.len(),
            es@ == du.entries(u as int),
            find_from(es@, off, 0) == find_from(es@, off, k as int),
        decreases es@.len() - k,
    {
        if es[k].offset == off {
            return Ok(ContextEntry { unit: u, index: k });
        }
        k = k + 1;
    }
    Err(LayoutError::NoEntryAtOffset)
}

/// The unit that holds `.debug_info` offset `g`, and the offset relative to it.
fn find_owner(du: &DwarfUnits, g: u64) -> (r: Option<(usize, u64)>)
    ensures
        match r {
            Some((u, o)) => owner_from(du.units_seq(), g, 0) == Some((u as int, o)),
            None => owner_from(du.units_seq(), g, 0) is None,
        },
        r matches Some((u, o)) ==> u < du.units_seq().len(),
{
    let mut k: usize = 0;
    proof {
        lemma_owner_in_range(du.units_seq(), g, 0);
    }
    while k < du.unit_count()
        invariant
            k <= du.units_seq().len(),
            owner_from(du.units_seq(), g, 0) == owner_from(du.units_seq(), g, k as int),
        decreases du.units_seq().len() - k,
    {
        let u = &du.unit(k);
        if g >= u.offset && g - u.offset >= u.header_size && g - u.offset < u.length {
            return Some((k, g - u.offset));
        }
        k = k + 1;
    }
    None
}

impl ContextEntry {
    /// The entry's tag.
    pub fn tag(&self, du: &DwarfUnits) -> (r: Tag)
        requires
            du.valid(*self),
        ensures
            r == du.entry(*self).tag,
    {
        du.unit(self.unit).entries[self.index].tag
    }

    /// Follows the `DW_AT_type` reference, within the unit or across units.
    pub fn class(&self, du: &DwarfUnits) -> (r: Result<Option<ContextEntry>, LayoutError>)
        requires
            du.valid(*self),
        ensures
            r == class_of(du, *self),
            r matches Ok(Some(t)) ==> du.valid(t),
    {
        match du.unit(self.unit).entries[self.index].type_ref {
            None => Ok(None),
            Some(AttrValue::UnitRef(off)) => match find_entry(du, self.unit, off) {
                Ok(t) => Ok(Some(t)),
                Err(e) => Err(e),
            },
            Some(AttrValue::DebugInfoRef(g)) => match find_owner(du, g) {
                Some((u, off)) => match find_entry(du, u, off) {
                    Ok(t) => Ok(Some(t)),
                    Err(e) => Err(e),
                },
                None => Err(LayoutError::UnresolvedReference),
            },
            Some(_) => Err(LayoutError::InvalidTypeReference),
        }
    }

    /// The size in bytes of the described type.
    pub fn size_bytes(&self, du: &DwarfUnits) -> (r: Result<Option<u64>, LayoutError>)
        requires
            du.valid(*self),
        ensures
            r == size_of(du, *self),
    {
        let e = &du.unit(self.unit).entries[self.index];
        match e.byte_size {
            Some(AttrValue::Udata(n)) => Ok(Some(n)),
            Some(_) => Err(LayoutError::InvalidByteSize),
            None => match e.tag {
                Tag::PointerType => Ok(Some(du.pointer_size())),
                _ => Ok(None),
            },
        }
    }

    /// The byte offset of the member inside its class.
    pub fn member_location(&self, du: &DwarfUnits) -> (r: Result<Option<u64>, LayoutError>)
        requires
            du.valid(*self),
            du.entry(*self).tag == Tag::Member || du.entry(*self).tag == Tag::Inheritance,
        ensures
            r == location_of(du, *self),
    {
        match du.unit(self.unit).entries[self.index].member_location {
            Some(AttrValue::Udata(n)) => Ok(Some(n)),
            Some(_) => Err(LayoutError::InvalidMemberLocation),
            None => Ok(None),
        }
    }

    /// The name given by `DW_AT_name` alone.
    pub fn name_from_tag(&self, du: &DwarfUnits) -> (r: Option<String>)
        requires
            du.valid(*self),
        ensures
            opt_view(r) == opt_view(du.entry(*self).name),
    {
        match &du.unit(self.unit).entries[self.index].name {
            Some(s) => Some(s.clone()),
            None => None,
        }
    }

    fn name_with_fuel(&self, du: &DwarfUnits, fuel: u64) -> (r: Result<Option<String>, LayoutError>)
        requires
            du.valid(*self),
        ensures
            name_result_view(r) == name_of(du, *self, fuel as nat),
        decreases fuel,
    {
        let direct = self.name_from_tag(du);
        if direct.is_some() {
            return Ok(direct);
        }
        if self.tag(du) != Tag::PointerType {
            return Ok(None);
        }
        if fuel == 0 {
            return Err(LayoutError::TypeChainTooLong);
        }
        match self.class(du) {
            Err(e) => Err(e),
            Ok(None) => Ok(None),
            Ok(Some(p)) => match p.name_with_fuel(du, fuel - 1) {
                Ok(Some(n)) => {
                    let mut s = n;
                    proof {
                        reveal_strlit("*");
                        assert("*"@ =~= seq!['*']);
                    }
                    s.append("*");
                    Ok(Some(s))
                },
                other => other,
            },
        }
    }

    /// The name of the entity: `DW_AT_name`, or for a pointer type the
    /// pointee's name followed by `*`.
    pub fn name(&self, du: &DwarfUnits) -> (r: Result<Option<String>, LayoutError>)
        requires
            du.valid(*self),
        ensures
            name_result_view(r) == entry_name(du, *self),
    {
        self.name_with_fuel(du, du.max_chain())
    }

    /// Follows `DW_AT_type` through typedefs to the first entry that is
    /// no typedef.
    pub fn expand_type_defs(self, du: &DwarfUnits) -> (r: Result<ContextEntry, LayoutError>)
        requires
            du.valid(self),
        ensures
            r == expanded(du, self),
            r matches Ok(t) ==> du.valid(t) && du.entry(t).tag != Tag::Typedef,
    {
        let mut cur = self;
        let mut fuel: u64 = du.max_chain();
        while cur.tag(du) == Tag::Typedef
            invariant
                du.valid(cur),
                expanded(du, self) == expand_from(du, cur, fuel as nat),
            decreases fuel,
        {
            if fuel == 0 {
                return Err(LayoutError::TypeChainTooLong);
            }
            match cur.class(du) {
                Err(e) => {
                    return Err(e);
                },
                Ok(None) => {
                    return Err(LayoutError::MissingType);
                },
                Ok(Some(t)) => {
                    cur = t;
                    fuel = fuel - 1;
                },
            }
        }
        Ok(cur)
    }
}

} // verus!
