use vstd::prelude::*;
use crate::model::{ContextEntry, DwarfUnits, LayoutError, Tag};
use crate::entry::{class_of, entry_name, location_of, opt_view};
use crate::tree::{child_entries, lemma_children_valid};

verus! {

/// Which classes to print. A field that is `None` accepts every class.
pub struct SearchFilter {
    /// Only classes with this name.
    pub class_name: Option<String>,
    /// Only classes with a direct base class of this name.
    pub base_class_name: Option<String>,
    /// Only classes with a data member whose type has this name.
    pub contained_class_name: Option<String>,
}

/// Scans `kids` in order for an inheritance entry whose base class is named
/// `target`; stops at the first match, or at the first malformed entry.
pub open spec fn find_base(du: &DwarfUnits, kids: Seq<ContextEntry>, target: Seq<char>) -> Result<bool, LayoutError>
    decreases kids.len(),
{
    if kids.len() == 0 {
        Ok(false)
    } else if du.entry(kids[0]).tag != Tag::Inheritance {
        find_base(du, kids.drop_first(), target)
    } else {
        match class_of(du, kids[0]) {
            Err(e) => Err(e),
            Ok(None) => find_base(du, kids.drop_first(), target),
            Ok(Some(b)) => match entry_name(du, b) {
                Err(e) => Err(e),
                Ok(n) => if n == Some(target) {
                    Ok(true)
                } else {
                    find_base(du, kids.drop_first(), target)
                },
            },
        }
    }
}

/// Scans `kids` in order for a data member (a member with a location)
/// whose type is named `target`; stops at the first match, or at the first
/// malformed entry.
pub open spec fn find_member(du: &DwarfUnits, kids: Seq<ContextEntry>, target: Seq<char>) -> Result<bool, LayoutError>
    decreases kids.len(),
{
    if kids.len() == 0 {
        Ok(false)
    } else if du.entry(kids[0]).tag != Tag::Member {
        find_member(du, kids.drop_first(), target)
    } else {
        match location_of(du, kids[0]) {
            Err(e) => Err(e),
            Ok(None) => find_member(du, kids.drop_first(), target),
            Ok(Some(_)) => match class_of(du, kids[0]) {
                Err(e) => Err(e),
                Ok(None) => find_member(du, kids.drop_first(), target),
                Ok(Some(t)) => match entry_name(du, t) {
                    Err(e) => Err(e),
                    Ok(n) => if n == Some(target) {
                        Ok(true)
                    } else {
                        find_member(du, kids.drop_first(), target)
                    },
                },
            },
        }
    }
}

/// The class-name condition.
pub open spec fn name_ok(du: &DwarfUnits, c: ContextEntry, name: Option<Seq<char>>) -> Result<bool, LayoutError> {
    match name {
        None => Ok(true),
        Some(x) => match entry_name(du, c) {
            Err(e) => Err(e),
            Ok(n) => Ok(n == Some(x)),
        },
    }
}

/// The base-class condition.
pub open spec fn base_ok(du: &DwarfUnits, c: ContextEntry, base: Option<Seq<char>>) -> Result<bool, LayoutError> {
    match base {
        None => Ok(true),
        Some(b) => find_base(du, child_entries(du, c), b),
    }
}

/// The contained-member condition.
pub open spec fn contains_ok(du: &DwarfUnits, c: ContextEntry, contains: Option<Seq<char>>) -> Result<bool, LayoutError> {
    match contains {
        None => Ok(true),
        Some(t) => find_member(du, child_entries(du, c), t),
    }
}

/// All three conditions, checked in turn; a condition that fails stops the
/// check before the next one is looked at.
pub open spec fn passes(
    du: &DwarfUnits,
    c: ContextEntry,
    name: Option<Seq<char>>,
    base: Option<Seq<char>>,
    contains: Option<Seq<char>>,
) -> Result<bool, LayoutError> {
    match name_ok(du, c, name) {
        Err(e) => Err(e),
        Ok(false) => Ok(false),
        Ok(true) => match base_ok(du, c, base) {
            Err(e) => Err(e),
            Ok(false) => Ok(false),
            Ok(true) => contains_ok(du, c, contains),
        },
    }
}

/// Whether a direct base class of `c` is named `target`.
pub fn has_base_class(du: &DwarfUnits, c: ContextEntry, target: &String) -> (r: Result<bool, LayoutError>)
    requires
        du.valid(c),
    ensures
        r == find_base(du, child_entries(du, c), target@),
{
    let kids = c.iter_children(du);
    proof {
        lemma_children_valid(du, c);
        assert(kids@.subrange(0, kids@.len() as int) =~= kids@);
    }
    let mut k: usize = 0;
    while k < kids.len()
        invariant
            k <= kids@.len(),
            kids@ == child_entries(du, c),
            forall|n: int| 0 <= n < kids@.len() ==> du.valid(#[trigger] kids@[n]),
            find_base(du, kids@, target@) == find_base(du, kids@.subrange(k as int, kids@.len() as int), target@),
        decreases kids@.len() - k,
    {
        let ghost rest = kids@.subrange(k as int, kids@.len() as int);
        assert(rest.drop_first() =~= kids@.subrange(k + 1, kids@.len() as int));
        let kid = kids[k];
        if kid.tag(du) == Tag::Inheritance {
            match kid.class(du) {
                Err(e) => {
                    return Err(e);
                },
                Ok(None) => {},
                Ok(Some(b)) => match b.name(du) {
                    Err(e) => {
                        return Err(e);
                    },
                    Ok(Some(n)) => {
                        if n == *target {
                            return Ok(true);
                        }
                    },
                    Ok(None) => {},
                },
            }
        }
        k = k + 1;
    }
    assert(kids@.subrange(k as int, kids@.len() as int) =~= Seq::empty());
    Ok(false)
}

/// Whether a data member of `c` has a type named `target`.
pub fn contains_class(du: &DwarfUnits, c: ContextEntry, target: &String) -> (r: Result<bool, LayoutError>)
    requires
        du.valid(c),
    ensures
        r == find_member(du, child_entries(du, c), target@),
{
    let kids = c.iter_children(du);
    proof {
        lemma_children_valid(du, c);
        assert(kids@.subrange(0, kids@.len() as int) =~= kids@);
    }
    let mut k: usize = 0;
    while k < kids.len()
        invariant
            k <= kids@.len(),
            kids@ == child_entries(du, c),
            forall|n: int| 0 <= n < kids@.len() ==> du.valid(#[trigger] kids@[n]),
            find_member(du, kids@, target@) == find_member(du, kids@.subrange(k as int, kids@.len() as int), target@),
        decreases kids@.len() - k,
    {
        let ghost rest = kids@.subrange(k as int, kids@.len() as int);
        assert(rest.drop_first() =~= kids@.subrange(k + 1, kids@.len() as int));
        let kid = kids[k];
        if kid.tag(du) == Tag::Member {
            match kid.member_location(du) {
                Err(e) => {
                    return Err(e);
                },
                Ok(None) => {},
                Ok(Some(_)) => match kid.class(du) {
                    Err(e) => {
                        return Err(e);
                    },
                    Ok(None) => {},
                    Ok(Some(t)) => match t.name(du) {
                        Err(e) => {
                            return Err(e);
                        },
                        Ok(Some(n)) => {
                            if n == *target {
                                return Ok(true);
                            }
                        },
                        Ok(None) => {},
                    },
                },
            }
        }
        k = k + 1;
    }
    assert(kids@.subrange(k as int, kids@.len() as int) =~= Seq::empty());
    Ok(false)
}

/// The base classes that the inheritance entries among `kids` refer to, in
/// order; inheritance entries without a type are passed over.
pub open spec fn base_classes(du: &DwarfUnits, kids: Seq<ContextEntry>) -> Result<Seq<ContextEntry>, LayoutError>
    decreases kids.len(),
{
    if kids.len() == 0 {
        Ok(Seq::empty())
    } else {
        let rest = base_classes(du, kids.drop_first());
        if du.entry(kids[0]).tag != Tag::Inheritance {
            rest
        } else {
            match class_of(du, kids[0]) {
                Err(e) => Err(e),
                Ok(None) => rest,
                Ok(Some(b)) => match rest {
                    Ok(bs) => Ok(seq![b] + bs),
                    Err(e) => Err(e),
                },
            }
        }
    }
}

/// The data members among `kids`: member entries with a location, in order.
pub open spec fn class_members(du: &DwarfUnits, kids: Seq<ContextEntry>) -> Result<Seq<ContextEntry>, LayoutError>
    decreases kids.len(),
{
    if kids.len() == 0 {
        Ok(Seq::empty())
    } else {
        let rest = class_members(du, kids.drop_first());
        if du.entry(kids[0]).tag != Tag::Member {
            rest
        } else {
            match location_of(du, kids[0]) {
                Err(e) => Err(e),
                Ok(None) => rest,
                Ok(Some(_)) => match rest {
                    Ok(ms) => Ok(seq![kids[0]] + ms),
                    Err(e) => Err(e),
                },
            }
        }
    }
}

pub open spec fn prepend_entries(acc: Seq<ContextEntry>, r: Result<Seq<ContextEntry>, LayoutError>) -> Result<Seq<ContextEntry>, LayoutError> {
    match r {
        Ok(s) => Ok(acc + s),
        Err(e) => Err(e),
    }
}

pub open spec fn entries_view(r: Result<Vec<ContextEntry>, LayoutError>) -> Result<Seq<ContextEntry>, LayoutError> {
    match r {
        Ok(v) => Ok(v@),
        Err(e) => Err(e),
    }
}

impl ContextEntry {
    /// The direct base classes of this class, in order.
    pub fn iter_base_classes(&self, du: &DwarfUnits) -> (r: Result<Vec<ContextEntry>, LayoutError>)
        requires
            du.valid(*self),
            du.entry(*self).tag == Tag::ClassType,
        ensures
            entries_view(r) == base_classes(du, child_entries(du, *self)),
            r matches Ok(v) ==> forall|i: int| 0 <= i < v@.len() ==> du.valid(#[trigger] v@[i]),
    {
        let kids = self.iter_children(du);
        proof {
            lemma_children_valid(du, *self);
            assert(kids@.subrange(0, kids@.len() as int) =~= kids@);
            if let Ok(bs) = base_classes(du, kids@) {
                assert(Seq::<ContextEntry>::empty() + bs =~= bs);
            }
        }
        let mut acc: Vec<ContextEntry> = Vec::new();
        let mut k: usize = 0;
        while k < kids.len()
            invariant
                k <= kids@.len(),
                forall|i: int| 0 <= i < kids@.len() ==> du.valid(#[trigger] kids@[i]),
                forall|i: int| 0 <= i < acc@.len() ==> du.valid(#[trigger] acc@[i]),
                kids@ == child_entries(du, *self),
                base_classes(du, kids@) == prepend_entries(
                    acc@,
                    base_classes(du, kids@.subrange(k as int, kids@.len() as int)),
                ),
            decreases kids@.len() - k,
        {
            let ghost before = acc@;
            let ghost rest = kids@.subrange(k as int, kids@.len() as int);
            assert(rest.drop_first() =~= kids@.subrange(k + 1, kids@.len() as int));
            let kid = kids[k];
            if kid.tag(du) == Tag::Inheritance {
                match kid.class(du) {
                    Err(e) => {
                        return Err(e);
                    },
                    Ok(None) => {},
                    Ok(Some(b)) => {
                        acc.push(b);
                        proof {
                            if let Ok(xs) = base_classes(du, kids@.subrange(k + 1, kids@.len() as int)) {
                                assert(before + (seq![b] + xs) =~= acc@ + xs);
                            }
                        }
                    },
                }
            }
            k = k + 1;
        }
        proof {
            assert(kids@.subrange(k as int, kids@.len() as int) =~= Seq::<ContextEntry>::empty());
            assert(acc@ + Seq::<ContextEntry>::empty() =~= acc@);
        }
        Ok(acc)
    }

    /// The data members of this class: member entries with a location, in
    /// order.
    pub fn iter_class_members(&self, du: &DwarfUnits) -> (r: Result<Vec<ContextEntry>, LayoutError>)
        requires
            du.valid(*self),
            du.entry(*self).tag == Tag::ClassType,
        ensures
            entries_view(r) == class_members(du, child_entries(du, *self)),
            r matches Ok(v) ==> forall|i: int| 0 <= i < v@.len() ==> du.valid(#[trigger] v@[i]),
    {
        let kids = self.iter_children(du);
        proof {
            lemma_children_valid(du, *self);
            assert(kids@.subrange(0, kids@.len() as int) =~= kids@);
            if let Ok(ms) = class_members(du, kids@) {
                assert(Seq::<ContextEntry>::empty() + ms =~= ms);
            }
        }
        let mut acc: Vec<ContextEntry> = Vec::new();
        let mut k: usize = 0;
        while k < kids.len()
            invariant
                k <= kids@.len(),
                forall|i: int| 0 <= i < kids@.len() ==> du.valid(#[trigger] kids@[i]),
                forall|i: int| 0 <= i < acc@.len() ==> du.valid(#[trigger] acc@[i]),
                kids@ == child_entries(du, *self),
                class_members(du, kids@) == prepend_entries(
                    acc@,
                    class_members(du, kids@.subrange(k as int, kids@.len() as int)),
                ),
            decreases kids@.len() - k,
        {
            let ghost before = acc@;
            let ghost rest = kids@.subrange(k as int, kids@.len() as int);
            assert(rest.drop_first() =~= kids@.subrange(k + 1, kids@.len() as int));
            let kid = kids[k];
            if kid.tag(du) == Tag::Member {
                match kid.member_location(du) {
                    Err(e) => {
                        return Err(e);
                    },
                    Ok(None) => {},
                    Ok(Some(_)) => {
                        acc.push(kid);
                        proof {
                            if let Ok(xs) = class_members(du, kids@.subrange(k + 1, kids@.len() as int)) {
                                assert(before + (seq![kid] + xs) =~= acc@ + xs);
                            }
                        }
                    },
                }
            }
            k = k + 1;
        }
        proof {
            assert(kids@.subrange(k as int, kids@.len() as int) =~= Seq::<ContextEntry>::empty());
            assert(acc@ + Seq::<ContextEntry>::empty() =~= acc@);
        }
        Ok(acc)
    }
}

impl SearchFilter {
    /// Whether the class `c` passes all three conditions.
    pub fn matches(&self, du: &DwarfUnits, c: ContextEntry) -> (r: Result<bool, LayoutError>)
        requires
            du.valid(c),
        ensures
            r == passes(
                du,
                c,
                opt_view(self.class_name),
                opt_view(self.base_class_name),
                opt_view(self.contained_class_name),
            ),
    {
        if let Some(x) = &self.class_name {
            match c.name(du) {
                Err(e) => {
                    return Err(e);
                },
                Ok(Some(n)) => {
                    if n != *x {
                        return Ok(false);
                    }
                },
                Ok(None) => {
                    return Ok(false);
                },
            }
        }
        if let Some(b) = &self.base_class_name {
            match has_base_class(du, c, b) {
                Err(e) => {
                    return Err(e);
                },
                Ok(false) => {
                    return Ok(false);
                },
                Ok(true) => {},
            }
        }
        match &self.contained_class_name {
            Some(t) => contains_class(du, c, t),
            None => Ok(true),
        }
    }
}

} // verus!
