use vstd::prelude::*;
use crate::model::{ContextEntry, DwarfUnits, LayoutError, Tag};
use crate::entry::{class_of, entry_name, expanded, location_of, name_result_view, size_of};
use crate::filter::{passes, SearchFilter};
use crate::entry::opt_view;
use crate::text::{dec, push_decimal};
use crate::tree::{child_entries, lemma_children_valid, top_level};

verus! {

/// One field line: `    T f; // s bytes, b-e` and a line break.
pub open spec fn field_line(tname: Seq<char>, fname: Seq<char>, size: nat, start: nat) -> Seq<char> {
    "    "@ + tname + " "@ + fname + "; // "@ + dec(size) + " bytes, "@ + dec(start) + "-"@
        + dec(start + size) + "\n"@
}

/// The header line of a class block.
pub open spec fn header_line(name: Seq<char>, size: nat) -> Seq<char> {
    "struct "@ + name + " { // "@ + dec(size) + " bytes\n"@
}

/// The line that closes a class block.
pub open spec fn footer_line() -> Seq<char> {
    "};\n"@
}

/// The printed type name of a field, given the name of its type.
pub open spec fn type_label(n: Option<Seq<char>>) -> Seq<char> {
    match n {
        Some(s) => s,
        None => "unknown_class"@,
    }
}

/// The printed name of a field.
pub open spec fn field_label(tag: Tag, n: Option<Seq<char>>) -> Seq<char> {
    if tag == Tag::Inheritance {
        "_base_class"@
    } else {
        match n {
            Some(s) => s,
            None => "unknown_name"@,
        }
    }
}

/// The text that child `k` of a class contributes: a field line for a
/// member or inheritance entry with a location, nothing for the others.
pub open spec fn child_text(du: &DwarfUnits, k: ContextEntry) -> Result<Seq<char>, LayoutError> {
    let tag = du.entry(k).tag;
    if tag != Tag::Member && tag != Tag::Inheritance {
        Ok(Seq::empty())
    } else {
        match location_of(du, k) {
            Err(e) => Err(e),
            Ok(None) => Ok(Seq::empty()),
            Ok(Some(start)) => match class_of(du, k) {
                Err(e) => Err(e),
                Ok(None) => Err(LayoutError::MissingType),
                Ok(Some(t)) => match expanded(du, t) {
                    Err(e) => Err(e),
                    Ok(ct) => match entry_name(du, ct) {
                        Err(e) => Err(e),
                        Ok(tn) => {
                            let fname = if tag == Tag::Inheritance {
                                Ok(None)
                            } else {
                                entry_name(du, k)
                            };
                            match fname {
                                Err(e) => Err(e),
                                Ok(fnm) => match size_of(du, ct) {
                                    Err(e) => Err(e),
                                    Ok(sz) => {
                                        let size: nat = match sz {
                                            Some(s) => s as nat,
                                            None => 0,
                                        };
                                        Ok(
                                            field_line(
                                                type_label(tn),
                                                field_label(tag, fnm),
                                                size,
                                                start as nat,
                                            ),
                                        )
                                    },
                                },
                            }
                        },
                    },
                },
            },
        }
    }
}

/// `acc` followed by the text of `r`, or the error of `r`.
pub open spec fn prepend(acc: Seq<char>, r: Result<Seq<char>, LayoutError>) -> Result<Seq<char>, LayoutError> {
    match r {
        Ok(t) => Ok(acc + t),
        Err(e) => Err(e),
    }
}

/// The field lines of the children `kids`, in order; the first malformed
/// child stops it.
pub open spec fn fields_text(du: &DwarfUnits, kids: Seq<ContextEntry>) -> Result<Seq<char>, LayoutError>
    decreases kids.len(),
{
    if kids.len() == 0 {
        Ok(Seq::empty())
    } else {
        match child_text(du, kids[0]) {
            Err(e) => Err(e),
            Ok(t) => prepend(t, fields_text(du, kids.drop_first())),
        }
    }
}

/// The block printed for class `c`: header, field lines, closing line.
pub open spec fn class_text(du: &DwarfUnits, c: ContextEntry) -> Result<Seq<char>, LayoutError> {
    match entry_name(du, c) {
        Err(e) => Err(e),
        Ok(None) => Err(LayoutError::UnnamedClass),
        Ok(Some(n)) => match size_of(du, c) {
            Err(e) => Err(e),
            Ok(None) => Err(LayoutError::InvalidByteSize),
            Ok(Some(s)) => match fields_text(du, child_entries(du, c)) {
                Err(e) => Err(e),
                Ok(f) => Ok(header_line(n, s as nat) + f + footer_line()),
            },
        },
    }
}

/// What has been printed so far: the names of the printed classes, in
/// order, and the text.
pub struct Printed {
    pub names: Seq<Seq<char>>,
    pub text: Seq<char>,
}

/// Handles one candidate entry: a sized class that passes the filter and
/// whose name was not printed yet is printed, after a blank line unless it
/// is the first.
pub open spec fn step(
    du: &DwarfUnits,
    name: Option<Seq<char>>,
    base: Option<Seq<char>>,
    contains: Option<Seq<char>>,
    st: Printed,
    c: ContextEntry,
) -> Result<Printed, LayoutError> {
    if du.entry(c).tag != Tag::ClassType {
        Ok(st)
    } else {
        match size_of(du, c) {
            Err(e) => Err(e),
            Ok(None) => Ok(st),
            Ok(Some(_)) => match passes(du, c, name, base, contains) {
                Err(e) => Err(e),
                Ok(false) => Ok(st),
                Ok(true) => match entry_name(du, c) {
                    Err(e) => Err(e),
                    Ok(None) => Err(LayoutError::UnnamedClass),
                    Ok(Some(n)) => if st.names.contains(n) {
                        Ok(st)
                    } else {
                        match class_text(du, c) {
                            Err(e) => Err(e),
                            Ok(t) => Ok(
                                Printed {
                                    names: st.names.push(n),
                                    text: st.text + (if st.names.len() > 0 {
                                        "\n"@
                                    } else {
                                        Seq::empty()
                                    }) + t,
                                },
                            ),
                        }
                    },
                },
            },
        }
    }
}

/// The candidates `cs` handled in order, from nothing printed.
pub open spec fn run(
    du: &DwarfUnits,
    name: Option<Seq<char>>,
    base: Option<Seq<char>>,
    contains: Option<Seq<char>>,
    cs: Seq<ContextEntry>,
) -> Result<Printed, LayoutError>
    decreases cs.len(),
{
    if cs.len() == 0 {
        Ok(Printed { names: Seq::empty(), text: Seq::empty() })
    } else {
        match run(du, name, base, contains, cs.drop_last()) {
            Err(e) => Err(e),
            Ok(st) => step(du, name, base, contains, st, cs.last()),
        }
    }
}

/// The top-level entries of the first `u` units, unit by unit.
pub open spec fn candidates(du: &DwarfUnits, u: int) -> Seq<ContextEntry>
    decreases u,
{
    if u <= 0 {
        Seq::empty()
    } else {
        candidates(du, u - 1) + top_level(du, u - 1)
    }
}

/// The first unit, from index `k` on, without a root entry.
pub open spec fn rootless_from(du: &DwarfUnits, k: int) -> Option<int>
    decreases du.units_seq().len() - k,
{
    if k < 0 || k >= du.units_seq().len() {
        None
    } else if du.entries(k).len() == 0 {
        Some(k)
    } else {
        rootless_from(du, k + 1)
    }
}

/// The number of units handled before the first one without a root entry.
pub open spec fn printable_units(du: &DwarfUnits) -> int {
    match rootless_from(du, 0) {
        Some(k) => k,
        None => du.units_seq().len() as int,
    }
}

/// The candidate entries that are handled, in order.
pub open spec fn all_candidates(du: &DwarfUnits) -> Seq<ContextEntry> {
    candidates(du, printable_units(du))
}

/// The whole output for the units `du` and the filter conditions, or the
/// first fatal error: a malformed candidate, or a unit without a root entry.
pub open spec fn layout_text(
    du: &DwarfUnits,
    name: Option<Seq<char>>,
    base: Option<Seq<char>>,
    contains: Option<Seq<char>>,
) -> Result<Seq<char>, LayoutError> {
    match run(du, name, base, contains, all_candidates(du)) {
        Err(e) => Err(e),
        Ok(st) => if rootless_from(du, 0) is Some {
            Err(LayoutError::MissingRootEntry)
        } else {
            Ok(st.text)
        },
    }
}

/// What handling the longest prefix of `cs` that has no malformed
/// candidate printed.
pub open spec fn last_ok(
    du: &DwarfUnits,
    name: Option<Seq<char>>,
    base: Option<Seq<char>>,
    contains: Option<Seq<char>>,
    cs: Seq<ContextEntry>,
) -> Printed
    decreases cs.len(),
{
    match run(du, name, base, contains, cs) {
        Ok(st) => st,
        Err(_) => if cs.len() == 0 {
            Printed { names: Seq::empty(), text: Seq::empty() }
        } else {
            last_ok(du, name, base, contains, cs.drop_last())
        },
    }
}

/// The text printed before the run stops: all of it when nothing is
/// malformed, else the blocks of the classes handled before the fatal error.
pub open spec fn printed_text(
    du: &DwarfUnits,
    name: Option<Seq<char>>,
    base: Option<Seq<char>>,
    contains: Option<Seq<char>>,
) -> Seq<char> {
    last_ok(du, name, base, contains, all_candidates(du)).text
}

/// The output of a run: its text, or the text printed before the fatal
/// error together with that error.
pub open spec fn dump_view(r: Result<String, (String, LayoutError)>) -> (Seq<char>, Option<LayoutError>) {
    match r {
        Ok(s) => (s@, None),
        Err((s, e)) => (s@, Some(e)),
    }
}

/// Later units have no root-less unit before `k`.
pub proof fn lemma_rootless_after(du: &DwarfUnits, k: int)
    requires
        0 <= k,
    ensures
        rootless_from(du, k) matches Some(j) ==> k <= j < du.units_seq().len() && du.entries(j).len() == 0,
    decreases du.units_seq().len() - k,
{
    if k < du.units_seq().len() && du.entries(k).len() > 0 {
        lemma_rootless_after(du, k + 1);
    }
}

/// Past a malformed candidate, what was printed stays as it was.
pub proof fn lemma_last_ok_after_err(
    du: &DwarfUnits,
    name: Option<Seq<char>>,
    base: Option<Seq<char>>,
    contains: Option<Seq<char>>,
    cs: Seq<ContextEntry>,
    more: Seq<ContextEntry>,
)
    requires
        run(du, name, base, contains, cs) is Err,
    ensures
        last_ok(du, name, base, contains, cs + more) == last_ok(du, name, base, contains, cs),
    decreases more.len(),
{
    if more.len() == 0 {
        assert(cs + more =~= cs);
    } else {
        lemma_last_ok_after_err(du, name, base, contains, cs, more.drop_last());
        lemma_run_err_extends(du, name, base, contains, cs, more);
        assert((cs + more).drop_last() =~= cs + more.drop_last());
    }
}

pub open spec fn text_view(r: Result<String, LayoutError>) -> Result<Seq<char>, LayoutError> {
    match r {
        Ok(s) => Ok(s@),
        Err(e) => Err(e),
    }
}

fn format_field(tn: &Option<String>, tag: Tag, fnm: &Option<String>, size: u64, start: u64) -> (r: String)
    ensures
        r@ == field_line(type_label(opt_view(*tn)), field_label(tag, opt_view(*fnm)), size as nat, start as nat),
{
    let mut out = String::new();
    out.append("    ");
    match tn {
        Some(s) => out.append(s.as_str()),
        None => out.append("unknown_class"),
    }
    out.append(" ");
    if tag == Tag::Inheritance {
        out.append("_base_class");
    } else {
        match fnm {
            Some(s) => out.append(s.as_str()),
            None => out.append("unknown_name"),
        }
    }
    out.append("; // ");
    push_decimal(&mut out, size as u128);
    out.append(" bytes, ");
    push_decimal(&mut out, start as u128);
    out.append("-");
    push_decimal(&mut out, start as u128 + size as u128);
    out.append("\n");
    proof {
        let line = field_line(type_label(opt_view(*tn)), field_label(tag, opt_view(*fnm)), size as nat, start as nat);
        assert(out@ =~= line);
    }
    out
}

/// The field line of child `k`, empty when it has none.
fn child_line(du: &DwarfUnits, k: ContextEntry) -> (r: Result<String, LayoutError>)
    requires
        du.valid(k),
    ensures
        text_view(r) == child_text(du, k),
{
    let tag = k.tag(du);
    if tag != Tag::Member && tag != Tag::Inheritance {
        return Ok(String::new());
    }
    let start = match k.member_location(du) {
        Err(e) => {
            return Err(e);
        },
        Ok(None) => {
            return Ok(String::new());
        },
        Ok(Some(s)) => s,
    };
    let t = match k.class(du) {
        Err(e) => {
            return Err(e);
        },
        Ok(None) => {
            return Err(LayoutError::MissingType);
        },
        Ok(Some(t)) => t,
    };
    let ct = match t.expand_type_defs(du) {
        Err(e) => {
            return Err(e);
        },
        Ok(ct) => ct,
    };
    let tn = match ct.name(du) {
        Err(e) => {
            return Err(e);
        },
        Ok(tn) => tn,
    };
    let fnm = if tag == Tag::Inheritance {
        None
    } else {
        match k.name(du) {
            Err(e) => {
                return Err(e);
            },
            Ok(n) => n,
        }
    };
    let size: u64 = match ct.size_bytes(du) {
        Err(e) => {
            return Err(e);
        },
        Ok(Some(s)) => s,
        Ok(None) => 0,
    };
    Ok(format_field(&tn, tag, &fnm, size, start))
}

/// The field lines of the children `kids`, in order.
fn render_fields(du: &DwarfUnits, kids: &Vec<ContextEntry>) -> (r: Result<String, LayoutError>)
    requires
        forall|i: int| 0 <= i < kids@.len() ==> du.valid(#[trigger] kids@[i]),
    ensures
        text_view(r) == fields_text(du, kids@),
{
    let mut acc = String::new();
    let mut k: usize = 0;
    proof {
        assert(kids@.subrange(0, kids@.len() as int) =~= kids@);
        assert(Seq::<char>::empty() + fields_text(du, kids@)->Ok_0 =~= fields_text(du, kids@)->Ok_0);
    }
    while k < kids.len()
        invariant
            k <= kids@.len(),
            forall|i: int| 0 <= i < kids@.len() ==> du.valid(#[trigger] kids@[i]),
            fields_text(du, kids@) == prepend(acc@, fields_text(du, kids@.subrange(k as int, kids@.len() as int))),
        decreases kids@.len() - k,
    {
        let ghost before = acc@;
        let ghost rest = kids@.subrange(k as int, kids@.len() as int);
        assert(rest.drop_first() =~= kids@.subrange(k + 1, kids@.len() as int));
        let line = match child_line(du, kids[k]) {
            Err(e) => {
                return Err(e);
            },
            Ok(line) => line,
        };
        acc.append(line.as_str());
        proof {
            let x = fields_text(du, kids@.subrange(k + 1, kids@.len() as int));
            if let Ok(xs) = x {
                assert(before + (line@ + xs) =~= acc@ + xs);
            }
        }
        k = k + 1;
    }
    proof {
        assert(kids@.subrange(k as int, kids@.len() as int) =~= Seq::<ContextEntry>::empty());
        assert(acc@ + Seq::<char>::empty() =~= acc@);
    }
    Ok(acc)
}

/// The block of class `c`: its header, one line per data member and base
/// class, and the closing line.
pub fn render_class(du: &DwarfUnits, c: ContextEntry) -> (r: Result<String, LayoutError>)
    requires
        du.valid(c),
    ensures
        text_view(r) == class_text(du, c),
{
    let n = match c.name(du) {
        Err(e) => {
            return Err(e);
        },
        Ok(None) => {
            return Err(LayoutError::UnnamedClass);
        },
        Ok(Some(n)) => n,
    };
    let s = match c.size_bytes(du) {
        Err(e) => {
            return Err(e);
        },
        Ok(None) => {
            return Err(LayoutError::InvalidByteSize);
        },
        Ok(Some(s)) => s,
    };
    let kids = c.iter_children(du);
    proof {
        lemma_children_valid(du, c);
    }
    let fields = match render_fields(du, &kids) {
        Err(e) => {
            return Err(e);
        },
        Ok(f) => f,
    };
    let mut out = String::new();
    out.append("struct ");
    out.append(n.as_str());
    out.append(" { // ");
    push_decimal(&mut out, s as u128);
    out.append(" bytes\n");
    out.append(fields.as_str());
    out.append("};\n");
    proof {
        assert(out@ =~= header_line(n@, s as nat) + fields@ + footer_line());
    }
    Ok(out)
}

/// The names as text.
pub open spec fn names_view(v: Seq<String>) -> Seq<Seq<char>> {
    v.map_values(|s: String| s@)
}

/// Once a candidate is malformed, later candidates change nothing.
pub proof fn lemma_run_err_extends(
    du: &DwarfUnits,
    name: Option<Seq<char>>,
    base: Option<Seq<char>>,
    contains: Option<Seq<char>>,
    cs: Seq<ContextEntry>,
    more: Seq<ContextEntry>,
)
    requires
        run(du, name, base, contains, cs) is Err,
    ensures
        run(du, name, base, contains, cs + more) == run(du, name, base, contains, cs),
    decreases more.len(),
{
    if more.len() == 0 {
        assert(cs + more =~= cs);
    } else {
        lemma_run_err_extends(du, name, base, contains, cs, more.drop_last());
        assert((cs + more).drop_last() =~= cs + more.drop_last());
    }
}

/// The candidates of the first `m` units come first among those of the
/// first `n`.
pub proof fn lemma_candidates_prefix(du: &DwarfUnits, m: int, n: int)
    requires
        0 <= m <= n,
    ensures
        candidates(du, m).len() <= candidates(du, n).len(),
        candidates(du, n).subrange(0, candidates(du, m).len() as int) == candidates(du, m),
    decreases n - m,
{
    if m < n {
        lemma_candidates_prefix(du, m, n - 1);
        let a = candidates(du, n - 1);
        assert((a + top_level(du, n - 1)).subrange(0, candidates(du, m).len() as int) =~= a.subrange(
            0,
            candidates(du, m).len() as int,
        ));
    } else {
        assert(candidates(du, n).subrange(0, candidates(du, n).len() as int) =~= candidates(du, n));
    }
}

/// Handling one more candidate is one more step.
pub proof fn lemma_run_push(
    du: &DwarfUnits,
    name: Option<Seq<char>>,
    base: Option<Seq<char>>,
    contains: Option<Seq<char>>,
    cs: Seq<ContextEntry>,
    c: ContextEntry,
)
    ensures
        run(du, name, base, contains, cs.push(c)) == match run(du, name, base, contains, cs) {
            Err(e) => Err(e),
            Ok(st) => step(du, name, base, contains, st, c),
        },
{
    assert(cs.push(c).drop_last() =~= cs);
}

fn name_seen(names: &Vec<String>, n: &String) -> (r: bool)
    ensures
        r == names_view(names@).contains(n@),
{
    let mut i: usize = 0;
    while i < names.len()
        invariant
            i <= names@.len(),
            forall|j: int| 0 <= j < i ==> names@[j]@ != n@,
        decreases names@.len() - i,
    {
        if names[i] == *n {
            assert(names_view(names@)[i as int] == n@);
            return true;
        }
        i = i + 1;
    }
    proof {
        if names_view(names@).contains(n@) {
            let j = choose|j: int| 0 <= j < names_view(names@).len() && names_view(names@)[j] == n@;
            assert(names@[j]@ == n@);
        }
    }
    false
}

/// Handles one candidate entry, appending to `out` what it prints.
fn visit(
    du: &DwarfUnits,
    filter: &SearchFilter,
    c: ContextEntry,
    names: &mut Vec<String>,
    out: &mut String,
) -> (r: Result<(), LayoutError>)
    requires
        du.valid(c),
        names_view(old(names)@).len() > 0 <==> old(names)@.len() > 0,
    ensures
        match step(
            du,
            opt_view(filter.class_name),
            opt_view(filter.base_class_name),
            opt_view(filter.contained_class_name),
            Printed { names: names_view(old(names)@), text: old(out)@ },
            c,
        ) {
            Ok(st) => r is Ok && names_view(final(names)@) == st.names && final(out)@ == st.text,
            Err(e) => r == Err::<(), LayoutError>(e) && final(out)@ == old(out)@,
        },
{
    if c.tag(du) != Tag::ClassType {
        return Ok(());
    }
    match c.size_bytes(du) {
        Err(e) => {
            return Err(e);
        },
        Ok(None) => {
            return Ok(());
        },
        Ok(Some(_)) => {},
    }
    match filter.matches(du, c) {
        Err(e) => {
            return Err(e);
        },
        Ok(false) => {
            return Ok(());
        },
        Ok(true) => {},
    }
    let n = match c.name(du) {
        Err(e) => {
            return Err(e);
        },
        Ok(None) => {
            return Err(LayoutError::UnnamedClass);
        },
        Ok(Some(n)) => n,
    };
    if name_seen(names, &n) {
        return Ok(());
    }
    let block = match render_class(du, c) {
        Err(e) => {
            return Err(e);
        },
        Ok(b) => b,
    };
    let first = names.len() == 0;
    if !first {
        out.append("\n");
    }
    out.append(block.as_str());
    names.push(n);
    proof {
        assert(names_view(final(names)@) =~= names_view(old(names)@).push(n@));
        if first {
            assert(final(out)@ =~= old(out)@ + Seq::<char>::empty() + block@);
        }
    }
    Ok(())
}

/// The text printed for all classes of `du` that the filter selects: each
/// sized class among the top-level entries of the units, in order, whose
/// name was not printed before; blocks are separated by a blank line. On a
/// fatal error, the text printed up to it comes back with the error.
pub fn dump_file(du: &DwarfUnits, filter: &SearchFilter) -> (r: Result<String, (String, LayoutError)>)
    ensures
        ({
            let name = opt_view(filter.class_name);
            let base = opt_view(filter.base_class_name);
            let contains = opt_view(filter.contained_class_name);
            match r {
                Ok(s) => layout_text(du, name, base, contains) == Ok::<Seq<char>, LayoutError>(s@),
                Err((s, e)) => layout_text(du, name, base, contains) == Err::<Seq<char>, LayoutError>(e)
                    && s@ == printed_text(du, name, base, contains),
            }
        }),
{
    let ghost name = opt_view(filter.class_name);
    let ghost base = opt_view(filter.base_class_name);
    let ghost contains = opt_view(filter.contained_class_name);
    let mut names: Vec<String> = Vec::new();
    let mut out = String::new();
    let mut u: usize = 0;
    proof {
        assert(names_view(names@) =~= Seq::<Seq<char>>::empty());
    }
    while u < du.unit_count()
        invariant
            u <= du.units_seq().len(),
            name == opt_view(filter.class_name),
            base == opt_view(filter.base_class_name),
            contains == opt_view(filter.contained_class_name),
            rootless_from(du, 0) == rootless_from(du, u as int),
            run(du, name, base, contains, candidates(du, u as int)) == Ok::<Printed, LayoutError>(
                Printed { names: names_view(names@), text: out@ },
            ),
            names_view(names@).len() == names@.len(),
        decreases du.units_seq().len() - u,
    {
        if du.unit(u).entries.len() == 0 {
            return Err((out, LayoutError::MissingRootEntry));
        }
        assert(rootless_from(du, u as int) == rootless_from(du, u + 1));
        let tops = du.iter_top_level(u);
        proof {
            assert(candidates(du, u as int) + tops@.subrange(0, 0) =~= candidates(du, u as int));
        }
        let mut k: usize = 0;
        while k < tops.len()
            invariant
                u < du.units_seq().len(),
                du.entries(u as int).len() > 0,
                name == opt_view(filter.class_name),
                base == opt_view(filter.base_class_name),
                contains == opt_view(filter.contained_class_name),
                rootless_from(du, 0) == rootless_from(du, u + 1),
                k <= tops@.len(),
                tops@ == top_level(du, u as int),
                forall|i: int| 0 <= i < tops@.len() ==> du.valid(#[trigger] tops@[i]),
                run(du, name, base, contains, candidates(du, u as int) + tops@.subrange(0, k as int))
                    == Ok::<Printed, LayoutError>(Printed { names: names_view(names@), text: out@ }),
                names_view(names@).len() == names@.len(),
            decreases tops@.len() - k,
        {
            let c = tops[k];
            let ghost p = candidates(du, u as int) + tops@.subrange(0, k as int);
            let ghost before = Printed { names: names_view(names@), text: out@ };
            proof {
                lemma_run_push(du, name, base, contains, p, c);
                assert(p.push(c) =~= candidates(du, u as int) + tops@.subrange(0, k + 1));
            }
            match visit(du, filter, c, &mut names, &mut out) {
                Err(e) => {
                    proof {
                        let q = p.push(c);
                        lemma_rootless_after(du, u + 1);
                        lemma_candidates_prefix(du, u as int + 1, printable_units(du));
                        assert(q =~= candidates(du, u as int + 1).subrange(0, q.len() as int));
                        let all = all_candidates(du);
                        let more = all.subrange(q.len() as int, all.len() as int);
                        assert(all =~= q + more);
                        lemma_run_err_extends(du, name, base, contains, q, more);
                        lemma_last_ok_after_err(du, name, base, contains, q, more);
                        assert(q.drop_last() =~= p);
                        assert(step(du, name, base, contains, before, c) is Err);
                        assert(run(du, name, base, contains, q) is Err);
                        assert(last_ok(du, name, base, contains, p) == before);
                        assert(last_ok(du, name, base, contains, q) == before);
                    }
                    return Err((out, e));
                },
                Ok(()) => {},
            }
            k = k + 1;
        }
        proof {
            assert(tops@.subrange(0, tops@.len() as int) =~= tops@);
        }
        u = u + 1;
    }
    Ok(out)
}

} // verus!
