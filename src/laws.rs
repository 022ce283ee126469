use vstd::prelude::*;
use crate::model::{ContextEntry, DwarfUnits, LayoutError, Tag};
use crate::entry::{class_of, entry_name, expand_from, expanded, location_of, name_of, size_of};
use crate::filter::{find_base, find_member, passes};
use crate::layout::{
    all_candidates, last_ok, printed_text, child_text, class_text, field_label, fields_text, footer_line, header_line, layout_text, run,
    step, type_label, Printed,
};
use crate::text::dec;
use crate::tree::child_entries;

verus! {

/// `k` is an inheritance entry whose base class is named `b`.
pub open spec fn base_hit(du: &DwarfUnits, k: ContextEntry, b: Seq<char>) -> bool {
    &&& du.entry(k).tag == Tag::Inheritance
    &&& match class_of(du, k) {
        Ok(Some(t)) => entry_name(du, t) == Ok::<Option<Seq<char>>, LayoutError>(Some(b)),
        _ => false,
    }
}

/// `k` is a data member (a member with a location) whose type, one
/// reference away, is named `x`.
pub open spec fn member_hit(du: &DwarfUnits, k: ContextEntry, x: Seq<char>) -> bool {
    &&& du.entry(k).tag == Tag::Member
    &&& location_of(du, k) is Ok
    &&& location_of(du, k)->Ok_0 is Some
    &&& match class_of(du, k) {
        Ok(Some(t)) => entry_name(du, t) == Ok::<Option<Seq<char>>, LayoutError>(Some(x)),
        _ => false,
    }
}

/// `c` is a class with a byte size.
pub open spec fn sized_class(du: &DwarfUnits, c: ContextEntry) -> bool {
    &&& du.entry(c).tag == Tag::ClassType
    &&& size_of(du, c) is Ok
    &&& size_of(du, c)->Ok_0 is Some
}

/// A printed field line gives the byte range `start-end` of the field with
/// `end - start` equal to the printed size; `start` is the member location.
pub proof fn lemma_field_range(du: &DwarfUnits, k: ContextEntry)
    requires
        du.valid(k),
        child_text(du, k) is Ok,
        child_text(du, k)->Ok_0.len() > 0,
    ensures
        exists|tn: Seq<char>, fnm: Seq<char>, size: nat, start: nat, end: nat|
            end - start == size && location_of(du, k) == Ok::<Option<u64>, LayoutError>(
                Some(start as u64),
            ) && #[trigger] child_text(du, k)->Ok_0 == "    "@ + tn + " "@ + fnm + "; // "@ + dec(size)
                + " bytes, "@ + dec(start) + "-"@ + dec(end) + "\n"@,
{
    let tag = du.entry(k).tag;
    let start = location_of(du, k)->Ok_0->Some_0;
    let t = class_of(du, k)->Ok_0->Some_0;
    let ct = expanded(du, t)->Ok_0;
    let tn = entry_name(du, ct)->Ok_0;
    let fnm = if tag == Tag::Inheritance {
        None
    } else {
        entry_name(du, k)->Ok_0
    };
    let size: nat = match size_of(du, ct)->Ok_0 {
        Some(s) => s as nat,
        None => 0,
    };
    let fl = field_label(tag, fnm);
    assert(child_text(du, k)->Ok_0 == "    "@ + type_label(tn) + " "@ + fl + "; // "@ + dec(size)
        + " bytes, "@ + dec(start as nat) + "-"@ + dec(start as nat + size) + "\n"@);
}

/// Every class name is printed at most once: the printed names hold no
/// duplicates.
pub proof fn lemma_printed_names_unique(
    du: &DwarfUnits,
    name: Option<Seq<char>>,
    base: Option<Seq<char>>,
    contains: Option<Seq<char>>,
    cs: Seq<ContextEntry>,
)
    requires
        run(du, name, base, contains, cs) is Ok,
    ensures
        run(du, name, base, contains, cs)->Ok_0.names.no_duplicates(),
    decreases cs.len(),
{
    if cs.len() > 0 {
        lemma_printed_names_unique(du, name, base, contains, cs.drop_last());
        let st = run(du, name, base, contains, cs.drop_last())->Ok_0;
        let st2 = step(du, name, base, contains, st, cs.last())->Ok_0;
        if st2.names != st.names {
            let n = entry_name(du, cs.last())->Ok_0->Some_0;
            assert(st2.names == st.names.push(n));
            assert forall|i: int, j: int|
                0 <= i < st2.names.len() && 0 <= j < st2.names.len() && i != j implies st2.names[i]
                != st2.names[j] by {
                if i == st.names.len() as int {
                    assert(st.names.contains(st.names[j]));
                } else if j == st.names.len() as int {
                    assert(st.names.contains(st.names[i]));
                }
            }
        }
    }
}

/// A class that a step prints has the requested name, a direct base of
/// the requested name, and a data member whose type (one reference away)
/// has the requested name, for each condition that is given.
pub proof fn lemma_printed_class_matches(
    du: &DwarfUnits,
    name: Option<Seq<char>>,
    base: Option<Seq<char>>,
    contains: Option<Seq<char>>,
    st: Printed,
    c: ContextEntry,
)
    requires
        step(du, name, base, contains, st, c) is Ok,
        step(du, name, base, contains, st, c)->Ok_0.names.len() > st.names.len(),
    ensures
        passes(du, c, name, base, contains) == Ok::<bool, LayoutError>(true),
        step(du, name, base, contains, st, c)->Ok_0.names.last() == entry_name(du, c)->Ok_0->Some_0,
        name matches Some(x) ==> entry_name(du, c) == Ok::<Option<Seq<char>>, LayoutError>(
            Some(x),
        ),
        base matches Some(b) ==> exists|i: int|
            0 <= i < child_entries(du, c).len() && #[trigger] base_hit(du, child_entries(du, c)[i], b),
        contains matches Some(x) ==> exists|i: int|
            0 <= i < child_entries(du, c).len() && #[trigger] member_hit(du, child_entries(du, c)[i], x),
{
    if let Some(b) = base {
        lemma_find_base_witness(du, child_entries(du, c), b);
    }
    if let Some(x) = contains {
        lemma_find_member_witness(du, child_entries(du, c), x);
    }
}

proof fn lemma_find_base_witness(du: &DwarfUnits, kids: Seq<ContextEntry>, b: Seq<char>)
    requires
        find_base(du, kids, b) == Ok::<bool, LayoutError>(true),
    ensures
        exists|i: int| 0 <= i < kids.len() && #[trigger] base_hit(du, kids[i], b),
    decreases kids.len(),
{
    if !base_hit(du, kids[0], b) {
        lemma_find_base_witness(du, kids.drop_first(), b);
        let i = choose|i: int| 0 <= i < kids.drop_first().len() && #[trigger] base_hit(du, kids.drop_first()[i], b);
        assert(kids[i + 1] == kids.drop_first()[i]);
    }
}

proof fn lemma_find_member_witness(du: &DwarfUnits, kids: Seq<ContextEntry>, x: Seq<char>)
    requires
        find_member(du, kids, x) == Ok::<bool, LayoutError>(true),
    ensures
        exists|i: int| 0 <= i < kids.len() && #[trigger] member_hit(du, kids[i], x),
    decreases kids.len(),
{
    if !member_hit(du, kids[0], x) {
        lemma_find_member_witness(du, kids.drop_first(), x);
        let i = choose|i: int| 0 <= i < kids.drop_first().len() && #[trigger] member_hit(du, kids.drop_first()[i], x);
        assert(kids[i + 1] == kids.drop_first()[i]);
    }
}

/// The output depends on the units and the filter alone: equal inputs
/// give equal output, run after run.
pub proof fn lemma_output_deterministic(
    du1: &DwarfUnits,
    du2: &DwarfUnits,
    name: Option<Seq<char>>,
    base: Option<Seq<char>>,
    contains: Option<Seq<char>>,
)
    requires
        *du1 == *du2,
    ensures
        layout_text(du1, name, base, contains) == layout_text(du2, name, base, contains),
        printed_text(du1, name, base, contains) == printed_text(du2, name, base, contains),
{
}

/// A class passes all three conditions exactly when it passes each of
/// them given alone.
pub proof fn lemma_filter_intersection(
    du: &DwarfUnits,
    c: ContextEntry,
    name: Option<Seq<char>>,
    base: Option<Seq<char>>,
    contains: Option<Seq<char>>,
)
    ensures
        passes(du, c, name, base, contains) == Ok::<bool, LayoutError>(true) <==> (
        passes(du, c, name, None, None) == Ok::<bool, LayoutError>(true) && passes(
            du,
            c,
            None,
            base,
            None,
        ) == Ok::<bool, LayoutError>(true) && passes(du, c, None, None, contains)
            == Ok::<bool, LayoutError>(true)),
{
}

/// A filter that every sized class among the candidates passes prints the
/// same as no filter at all.
pub proof fn lemma_filter_accepting_all(
    du: &DwarfUnits,
    name: Option<Seq<char>>,
    base: Option<Seq<char>>,
    contains: Option<Seq<char>>,
)
    requires
        forall|i: int|
            0 <= i < all_candidates(du).len() && sized_class(
                du,
                #[trigger] all_candidates(du)[i],
            ) ==> passes(du, all_candidates(du)[i], name, base, contains) == Ok::<
                bool,
                LayoutError,
            >(true),
    ensures
        layout_text(du, name, base, contains) == layout_text(du, None, None, None),
        printed_text(du, name, base, contains) == printed_text(du, None, None, None),
{
    let cs = all_candidates(du);
    lemma_run_same(du, name, base, contains, cs, cs.len() as int);
    lemma_last_ok_same(du, name, base, contains, cs, cs.len() as int);
    assert(cs.subrange(0, cs.len() as int) =~= cs);
}

proof fn lemma_last_ok_same(
    du: &DwarfUnits,
    name: Option<Seq<char>>,
    base: Option<Seq<char>>,
    contains: Option<Seq<char>>,
    cs: Seq<ContextEntry>,
    n: int,
)
    requires
        0 <= n <= cs.len(),
        forall|i: int|
            0 <= i < cs.len() && sized_class(du, #[trigger] cs[i]) ==> passes(du, cs[i], name, base, contains)
                == Ok::<bool, LayoutError>(true),
    ensures
        last_ok(du, name, base, contains, cs.subrange(0, n)) == last_ok(du, None, None, None, cs.subrange(0, n)),
    decreases n,
{
    lemma_run_same(du, name, base, contains, cs, n);
    if n > 0 {
        lemma_last_ok_same(du, name, base, contains, cs, n - 1);
        assert(cs.subrange(0, n).drop_last() =~= cs.subrange(0, n - 1));
    }
}

proof fn lemma_run_same(
    du: &DwarfUnits,
    name: Option<Seq<char>>,
    base: Option<Seq<char>>,
    contains: Option<Seq<char>>,
    cs: Seq<ContextEntry>,
    n: int,
)
    requires
        0 <= n <= cs.len(),
        forall|i: int|
            0 <= i < cs.len() && sized_class(du, #[trigger] cs[i]) ==> passes(du, cs[i], name, base, contains) == Ok::<bool, LayoutError>(true),
    ensures
        run(du, name, base, contains, cs.subrange(0, n)) == run(du, None, None, None, cs.subrange(0, n)),
    decreases n,
{
    if n > 0 {
        lemma_run_same(du, name, base, contains, cs, n - 1);
        assert(cs.subrange(0, n).drop_last() =~= cs.subrange(0, n - 1));
        let c = cs[n - 1];
        assert(cs.subrange(0, n).last() == c);
        assert(passes(du, c, None, None, None) == Ok::<bool, LayoutError>(true));
    }
}

/// A pointer type without a name of its own is named after what it points
/// to, with `*` appended; without a byte size, its size is the pointer size.
pub proof fn lemma_pointer_name_and_size(du: &DwarfUnits, p: ContextEntry, fuel: nat)
    requires
        du.valid(p),
        du.entry(p).tag == Tag::PointerType,
        du.entry(p).name is None,
        du.entry(p).byte_size is None,
        class_of(du, p) is Ok,
        class_of(du, p)->Ok_0 is Some,
        name_of(du, class_of(du, p)->Ok_0->Some_0, fuel) is Ok,
        name_of(du, class_of(du, p)->Ok_0->Some_0, fuel)->Ok_0 is Some,
    ensures
        name_of(du, p, fuel + 1) == Ok::<Option<Seq<char>>, LayoutError>(
            Some(name_of(du, class_of(du, p)->Ok_0->Some_0, fuel)->Ok_0->Some_0 + seq!['*']),
        ),
        size_of(du, p) == Ok::<Option<u64>, LayoutError>(Some(du.pointer_width())),
{
    assert((fuel + 1 - 1) as nat == fuel);
}

/// Typedefs are expanded through the whole chain: what comes out is no
/// typedef, and a typedef expands to what the entry it refers to expands to.
pub proof fn lemma_typedef_chain(du: &DwarfUnits, c: ContextEntry, fuel: nat)
    ensures
        expand_from(du, c, fuel) matches Ok(t) ==> du.entry(t).tag != Tag::Typedef,
        du.entry(c).tag == Tag::Typedef && class_of(du, c) is Ok && class_of(du, c)->Ok_0 is Some
            ==> expand_from(du, c, fuel + 1) == expand_from(du, class_of(du, c)->Ok_0->Some_0, fuel),
    decreases fuel,
{
    if du.entry(c).tag == Tag::Typedef && fuel > 0 {
        if let Ok(Some(d)) = class_of(du, c) {
            lemma_typedef_chain(du, d, (fuel - 1) as nat);
        }
    }
    assert((fuel + 1 - 1) as nat == fuel);
}

/// `t` begins with `p`.
pub open spec fn starts_with(t: Seq<char>, p: Seq<char>) -> bool {
    t.len() >= p.len() && t.subrange(0, p.len() as int) == p
}

/// A field whose type, after typedefs are expanded, has no name is printed
/// with the type name `unknown_class`.
pub proof fn lemma_anonymous_type(du: &DwarfUnits, k: ContextEntry)
    requires
        du.valid(k),
        child_text(du, k) is Ok,
        child_text(du, k)->Ok_0.len() > 0,
        entry_name(du, expanded(du, class_of(du, k)->Ok_0->Some_0)->Ok_0) == Ok::<
            Option<Seq<char>>,
            LayoutError,
        >(None),
    ensures
        starts_with(child_text(du, k)->Ok_0, "    unknown_class "@),
{
    let tag = du.entry(k).tag;
    let start = location_of(du, k)->Ok_0->Some_0;
    let ct = expanded(du, class_of(du, k)->Ok_0->Some_0)->Ok_0;
    let fnm = if tag == Tag::Inheritance {
        None
    } else {
        entry_name(du, k)->Ok_0
    };
    let size: nat = match size_of(du, ct)->Ok_0 {
        Some(s) => s as nat,
        None => 0,
    };
    let rest = field_label(tag, fnm) + "; // "@ + dec(size) + " bytes, "@ + dec(start as nat) + "-"@
        + dec(start as nat + size) + "\n"@;
    let t = child_text(du, k)->Ok_0;
    assert(t =~= "    "@ + "unknown_class"@ + " "@ + rest);
    reveal_strlit("    unknown_class ");
    reveal_strlit("    ");
    reveal_strlit("unknown_class");
    reveal_strlit(" ");
    assert("    unknown_class "@ =~= "    "@ + "unknown_class"@ + " "@);
    assert(t.subrange(0, 18) =~= "    unknown_class "@);
}

/// `k` is printed as a field: a member or inheritance entry with a location.
pub open spec fn is_field(du: &DwarfUnits, k: ContextEntry) -> bool {
    &&& (du.entry(k).tag == Tag::Member || du.entry(k).tag == Tag::Inheritance)
    &&& location_of(du, k) != Ok::<Option<u64>, LayoutError>(None)
}

/// A named, sized class without fields prints its header line and the
/// closing line, and nothing between them.
pub proof fn lemma_class_without_fields(du: &DwarfUnits, c: ContextEntry)
    requires
        du.valid(c),
        entry_name(du, c) is Ok,
        entry_name(du, c)->Ok_0 is Some,
        size_of(du, c) is Ok,
        size_of(du, c)->Ok_0 is Some,
        forall|i: int|
            0 <= i < child_entries(du, c).len() ==> !is_field(du, #[trigger] child_entries(du, c)[i]),
    ensures
        class_text(du, c) == Ok::<Seq<char>, LayoutError>(
            header_line(entry_name(du, c)->Ok_0->Some_0, size_of(du, c)->Ok_0->Some_0 as nat)
                + footer_line(),
        ),
{
    lemma_no_fields(du, child_entries(du, c));
    let h = header_line(entry_name(du, c)->Ok_0->Some_0, size_of(du, c)->Ok_0->Some_0 as nat);
    assert(h + Seq::<char>::empty() + footer_line() =~= h + footer_line());
}

proof fn lemma_no_fields(du: &DwarfUnits, kids: Seq<ContextEntry>)
    requires
        forall|i: int| 0 <= i < kids.len() ==> !is_field(du, #[trigger] kids[i]),
    ensures
        fields_text(du, kids) == Ok::<Seq<char>, LayoutError>(Seq::empty()),
    decreases kids.len(),
{
    if kids.len() > 0 {
        assert(!is_field(du, kids[0]));
        assert forall|i: int| 0 <= i < kids.drop_first().len() implies !is_field(
            du,
            #[trigger] kids.drop_first()[i],
        ) by {
            assert(kids.drop_first()[i] == kids[i + 1]);
        }
        lemma_no_fields(du, kids.drop_first());
        assert(Seq::<char>::empty() + Seq::<char>::empty() =~= Seq::<char>::empty());
    }
}

/// Some direct child of `e` is an inheritance entry whose base is named `b`.
pub open spec fn has_base_named(du: &DwarfUnits, e: ContextEntry, b: Seq<char>) -> bool {
    exists|k: int| 0 <= k < child_entries(du, e).len() && #[trigger] base_hit(du, child_entries(du, e)[k], b)
}

/// Some direct child of `e` is a data member whose type is named `x`.
pub open spec fn has_member_named(du: &DwarfUnits, e: ContextEntry, x: Seq<char>) -> bool {
    exists|k: int| 0 <= k < child_entries(du, e).len() && #[trigger] member_hit(du, child_entries(du, e)[k], x)
}

/// `e` is a class printed under the name `n` for the given conditions.
pub open spec fn printed_as(
    du: &DwarfUnits,
    name: Option<Seq<char>>,
    base: Option<Seq<char>>,
    contains: Option<Seq<char>>,
    e: ContextEntry,
    n: Seq<char>,
) -> bool {
    &&& du.entry(e).tag == Tag::ClassType
    &&& passes(du, e, name, base, contains) == Ok::<bool, LayoutError>(true)
    &&& entry_name(du, e) == Ok::<Option<Seq<char>>, LayoutError>(Some(n))
    &&& (name matches Some(x) ==> n == x)
    &&& (base matches Some(b) ==> has_base_named(du, e, b))
    &&& (contains matches Some(x) ==> has_member_named(du, e, x))
}

/// The classes that a run on the candidates `cs` prints, in order.
pub open spec fn selected(
    du: &DwarfUnits,
    name: Option<Seq<char>>,
    base: Option<Seq<char>>,
    contains: Option<Seq<char>>,
    cs: Seq<ContextEntry>,
) -> Seq<ContextEntry>
    decreases cs.len(),
{
    if cs.len() == 0 {
        Seq::empty()
    } else {
        let before = selected(du, name, base, contains, cs.drop_last());
        match (run(du, name, base, contains, cs.drop_last()), run(du, name, base, contains, cs)) {
            (Ok(st), Ok(st2)) => if st2.names.len() > st.names.len() {
                before.push(cs.last())
            } else {
                before
            },
            _ => before,
        }
    }
}

/// The blocks of the classes `es`, with a blank line between two blocks.
pub open spec fn joined_blocks(du: &DwarfUnits, es: Seq<ContextEntry>) -> Seq<char>
    decreases es.len(),
{
    if es.len() == 0 {
        Seq::empty()
    } else if es.len() == 1 {
        class_text(du, es[0])->Ok_0
    } else {
        joined_blocks(du, es.drop_last()) + "\n"@ + class_text(du, es.last())->Ok_0
    }
}

/// The text of a run is the blocks of the classes it prints, in order,
/// one blank line between two blocks and none before the first or after
/// the last; the printed names are the names of those classes, each once.
pub proof fn lemma_run_text(
    du: &DwarfUnits,
    name: Option<Seq<char>>,
    base: Option<Seq<char>>,
    contains: Option<Seq<char>>,
    cs: Seq<ContextEntry>,
)
    requires
        run(du, name, base, contains, cs) is Ok,
    ensures
        ({
            let st = run(du, name, base, contains, cs)->Ok_0;
            let sel = selected(du, name, base, contains, cs);
            &&& st.text == joined_blocks(du, sel)
            &&& st.names.len() == sel.len()
            &&& st.names.no_duplicates()
            &&& forall|j: int|
                0 <= j < sel.len() ==> entry_name(du, #[trigger] sel[j]) == Ok::<
                    Option<Seq<char>>,
                    LayoutError,
                >(Some(st.names[j]))
            &&& forall|j: int| 0 <= j < sel.len() ==> (#[trigger] class_text(du, sel[j])) is Ok
            &&& forall|j: int|
                0 <= j < sel.len() ==> #[trigger] printed_as(du, name, base, contains, sel[j], st.names[j])
        }),
    decreases cs.len(),
{
    lemma_printed_names_unique(du, name, base, contains, cs);
    if cs.len() > 0 {
        let p = cs.drop_last();
        let c = cs.last();
        lemma_run_text(du, name, base, contains, p);
        let st = run(du, name, base, contains, p)->Ok_0;
        let st2 = run(du, name, base, contains, cs)->Ok_0;
        let sel = selected(du, name, base, contains, p);
        if st2.names.len() > st.names.len() {
            let sel2 = sel.push(c);
            assert(sel2.drop_last() =~= sel);
            let t = class_text(du, c)->Ok_0;
            if sel.len() == 0 {
                assert(st2.text =~= t);
            } else {
                assert(st2.text =~= joined_blocks(du, sel) + "\n"@ + t);
            }
            assert forall|j: int| 0 <= j < sel2.len() implies entry_name(du, #[trigger] sel2[j]) == Ok::<
                Option<Seq<char>>,
                LayoutError,
            >(Some(st2.names[j])) by {
                if j < sel.len() {
                    assert(sel2[j] == sel[j]);
                    assert(st2.names[j] == st.names[j]);
                }
            }
            assert forall|j: int| 0 <= j < sel2.len() implies (#[trigger] class_text(du, sel2[j])) is Ok by {
                if j < sel.len() {
                    assert(sel2[j] == sel[j]);
                }
            }
            lemma_printed_class_matches(du, name, base, contains, st, c);
            assert forall|j: int| 0 <= j < sel2.len() implies #[trigger] printed_as(
                du,
                name,
                base,
                contains,
                sel2[j],
                st2.names[j],
            ) by {
                if j < sel.len() {
                    assert(sel2[j] == sel[j]);
                    assert(st2.names[j] == st.names[j]);
                    assert(printed_as(du, name, base, contains, sel[j], st.names[j]));
                }
            }
        }
    }
}

/// The output of a run without a fatal error: the blocks of the selected
/// classes joined by blank lines, each selected class a sized class that
/// passes the filter (with the requested name, base and member type), and
/// no two of them with the same name.
pub proof fn lemma_layout_output(
    du: &DwarfUnits,
    name: Option<Seq<char>>,
    base: Option<Seq<char>>,
    contains: Option<Seq<char>>,
)
    requires
        layout_text(du, name, base, contains) is Ok,
    ensures
        ({
            let sel = selected(du, name, base, contains, all_candidates(du));
            &&& layout_text(du, name, base, contains)->Ok_0 == joined_blocks(du, sel)
            &&& forall|j: int|
                0 <= j < sel.len() ==> #[trigger] printed_as(
                    du,
                    name,
                    base,
                    contains,
                    sel[j],
                    entry_name(du, sel[j])->Ok_0->Some_0,
                )
            &&& forall|i: int, j: int|
                0 <= i < j < sel.len() ==> entry_name(du, #[trigger] sel[i]) != entry_name(
                    du,
                    #[trigger] sel[j],
                )
        }),
{
    let cs = all_candidates(du);
    lemma_run_text(du, name, base, contains, cs);
    let st = run(du, name, base, contains, cs)->Ok_0;
    let sel = selected(du, name, base, contains, cs);
    assert forall|j: int| 0 <= j < sel.len() implies #[trigger] printed_as(
        du,
        name,
        base,
        contains,
        sel[j],
        entry_name(du, sel[j])->Ok_0->Some_0,
    ) by {
        assert(printed_as(du, name, base, contains, sel[j], st.names[j]));
    }
    assert forall|i: int, j: int| 0 <= i < j < sel.len() implies entry_name(du, #[trigger] sel[i])
        != entry_name(du, #[trigger] sel[j]) by {
        assert(printed_as(du, name, base, contains, sel[i], st.names[i]));
        assert(printed_as(du, name, base, contains, sel[j], st.names[j]));
    }
}

} // verus!
