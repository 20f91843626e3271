use vstd::prelude::*;
use crate::mapper::{join, lemma_join_push, map_type, rust_type_to_wit};
use crate::model::{EnumCase, EnumDecl, Fields, Item, NamedField, SourceFile, StructDecl};
use crate::naming::{kebab, name_ok, reports, to_kebab_case, validate_name, NamingError};

verus! {

/// A rendered declaration, keyed by its normalized name.
#[derive(Clone, Debug)]
pub struct TypeDef {
    pub name: String,
    pub text: String,
}

/// A rejected name in the model: the category of its item, and the name.
pub type NameFault = (Seq<char>, Seq<char>);

/// The executable error agrees with the model's.
pub open spec fn err_agrees(e: NamingError, f: NameFault) -> bool {
    reports(e, f.0, f.1)
}

pub open spec fn defs_view(v: Seq<TypeDef>) -> Seq<(Seq<char>, Seq<char>)> {
    v.map_values(|d: TypeDef| (d.name@, d.text@))
}

pub open spec fn has_key(m: Seq<(Seq<char>, Seq<char>)>, k: Seq<char>) -> bool {
    exists|i: int| 0 <= i < m.len() && (#[trigger] m[i]).0 == k
}

pub open spec fn keys_unique(m: Seq<(Seq<char>, Seq<char>)>) -> bool {
    forall|i: int, j: int| 0 <= i < m.len() && 0 <= j < m.len() && i != j ==> (#[trigger] m[i]).0 != (
    #[trigger] m[j]).0
}

/// Stores `v` under `k`: in place of the entry with that key, else at the end.
pub open spec fn upsert(m: Seq<(Seq<char>, Seq<char>)>, k: Seq<char>, v: Seq<char>) -> Seq<
    (Seq<char>, Seq<char>),
> {
    if has_key(m, k) {
        m.update(choose|i: int| 0 <= i < m.len() && (#[trigger] m[i]).0 == k, (k, v))
    } else {
        m.push((k, v))
    }
}

/// The text stored under `k`, if any.
pub open spec fn lookup(m: Seq<(Seq<char>, Seq<char>)>, k: Seq<char>) -> Option<Seq<char>> {
    if has_key(m, k) {
        Some(m[choose|i: int| 0 <= i < m.len() && (#[trigger] m[i]).0 == k].1)
    } else {
        None
    }
}

pub open spec fn field_line(name: Seq<char>, ty: Seq<char>) -> Seq<char> {
    "        "@ + name + ": "@ + ty
}

/// The lines of a record's named fields, stopping at the first rejected name.
pub open spec fn field_lines(fs: Seq<NamedField>) -> Result<Seq<Seq<char>>, NameFault>
    decreases fs.len(),
{
    if fs.len() == 0 {
        Ok(Seq::empty())
    } else {
        match field_lines(fs.drop_last()) {
            Err(e) => Err(e),
            Ok(v) => {
                let f = fs.last();
                if !name_ok(f.name@) {
                    Err(("Field"@, f.name@))
                } else {
                    match map_type(f.ty, Seq::empty()).0 {
                        Ok(t) => Ok(v.push(field_line(kebab(f.name@), t))),
                        Err(n) => Err(("Type"@, n)),
                    }
                }
            },
        }
    }
}

/// The line of one enum case: a single associated type is kept, any other
/// payload is dropped.
pub open spec fn case_line(c: EnumCase) -> Result<Seq<char>, NameFault> {
    if !name_ok(c.name@) {
        Err(("Enum variant"@, c.name@))
    } else {
        match c.fields {
            Fields::Unnamed(v) if v@.len() == 1 => match map_type(v@[0], Seq::empty()).0 {
                Ok(t) => Ok("        "@ + kebab(c.name@) + "("@ + t + ")"@),
                Err(n) => Err(("Type"@, n)),
            },
            _ => Ok("        "@ + kebab(c.name@)),
        }
    }
}

pub open spec fn case_lines(cs: Seq<EnumCase>) -> Result<Seq<Seq<char>>, NameFault>
    decreases cs.len(),
{
    if cs.len() == 0 {
        Ok(Seq::empty())
    } else {
        match case_lines(cs.drop_last()) {
            Err(e) => Err(e),
            Ok(v) => match case_line(cs.last()) {
                Ok(l) => Ok(v.push(l)),
                Err(e) => Err(e),
            },
        }
    }
}

pub open spec fn block_text(word: Seq<char>, name: Seq<char>, lines: Seq<Seq<char>>) -> Seq<char> {
    "    "@ + word + " "@ + name + " {\n"@ + join(lines, ",\n"@) + "\n    }"@
}

/// The declarations of a module's items: records with at least one named
/// field and all enums, keyed by normalized name, a later one replacing an
/// earlier one of the same name.
pub open spec fn collect_defs(items: Seq<Item>) -> Result<Seq<(Seq<char>, Seq<char>)>, NameFault>
    decreases items.len(),
{
    if items.len() == 0 {
        Ok(Seq::empty())
    } else {
        match collect_defs(items.drop_last()) {
            Err(e) => Err(e),
            Ok(m) => match items.last() {
                Item::Struct(sd) => {
                    if !name_ok(sd.name@) {
                        Err(("Struct"@, sd.name@))
                    } else {
                        match sd.fields {
                            Fields::Named(fs) => match field_lines(fs@) {
                                Err(e) => Err(e),
                                Ok(ls) => if ls.len() == 0 {
                                    Ok(m)
                                } else {
                                    let k = kebab(sd.name@);
                                    Ok(upsert(m, k, block_text("record"@, k, ls)))
                                },
                            },
                            _ => Ok(m),
                        }
                    }
                },
                Item::Enum(ed) => {
                    if !name_ok(ed.name@) {
                        Err(("Enum"@, ed.name@))
                    } else {
                        match case_lines(ed.cases@) {
                            Err(e) => Err(e),
                            Ok(ls) => {
                                let k = kebab(ed.name@);
                                Ok(upsert(m, k, block_text("variant"@, k, ls)))
                            },
                        }
                    }
                },
                _ => Ok(m),
            },
        }
    }
}

proof fn lemma_field_lines_err(s: Seq<NamedField>, k: int)
    requires
        0 <= k <= s.len(),
        field_lines(s.subrange(0, k)) is Err,
    ensures
        field_lines(s) == field_lines(s.subrange(0, k)),
    decreases s.len() - k,
{
    if k < s.len() {
        assert(s.subrange(0, k + 1).drop_last() =~= s.subrange(0, k));
        lemma_field_lines_err(s, k + 1);
    } else {
        assert(s.subrange(0, k) =~= s);
    }
}

proof fn lemma_case_lines_err(s: Seq<EnumCase>, k: int)
    requires
        0 <= k <= s.len(),
        case_lines(s.subrange(0, k)) is Err,
    ensures
        case_lines(s) == case_lines(s.subrange(0, k)),
    decreases s.len() - k,
{
    if k < s.len() {
        assert(s.subrange(0, k + 1).drop_last() =~= s.subrange(0, k));
        lemma_case_lines_err(s, k + 1);
    } else {
        assert(s.subrange(0, k) =~= s);
    }
}

proof fn lemma_collect_defs_err(s: Seq<Item>, k: int)
    requires
        0 <= k <= s.len(),
        collect_defs(s.subrange(0, k)) is Err,
    ensures
        collect_defs(s) == collect_defs(s.subrange(0, k)),
    decreases s.len() - k,
{
    if k < s.len() {
        assert(s.subrange(0, k + 1).drop_last() =~= s.subrange(0, k));
        lemma_collect_defs_err(s, k + 1);
    } else {
        assert(s.subrange(0, k) =~= s);
    }
}

fn indented(name: &String, rest: &str) -> (r: String)
    ensures
        r@ == "        "@ + name@ + rest@,
{
    let mut out = "        ".to_string();
    out.append(name.as_str());
    out.append(rest);
    out
}

fn render_fields(fs: &Vec<NamedField>) -> (r: Result<Vec<String>, NamingError>)
    ensures
        match r {
            Ok(v) => field_lines(fs@) == Ok::<Seq<Seq<char>>, NameFault>(v.deep_view()),
            Err(e) => field_lines(fs@) matches Err(f) && err_agrees(e, f),
        },
{
    let mut out: Vec<String> = Vec::new();
    assert(out.deep_view() =~= Seq::<Seq<char>>::empty());
    let mut i: usize = 0;
    while i < fs.len()
        invariant
            i <= fs@.len(),
            field_lines(fs@.subrange(0, i as int)) == Ok::<Seq<Seq<char>>, NameFault>(
                out.deep_view(),
            ),
        decreases fs@.len() - i,
    {
        let ghost t = fs@.subrange(0, i + 1);
        assert(t.drop_last() =~= fs@.subrange(0, i as int));
        let f = &fs[i];
        if let Err(e) = validate_name(f.name.as_str(), "Field") {
            proof {
                lemma_field_lines_err(fs@, i + 1);
            }
            return Err(e);
        }
        let name = to_kebab_case(f.name.as_str());
        let mut used: Vec<String> = Vec::new();
        assert(used.deep_view() =~= Seq::<Seq<char>>::empty());
        let ty = match rust_type_to_wit(&f.ty, &mut used) {
            Ok(ty) => ty,
            Err(e) => {
                proof {
                    lemma_field_lines_err(fs@, i + 1);
                }
                return Err(e);
            },
        };
        let mut line = indented(&name, ": ");
        line.append(ty.as_str());
        let ghost before = out.deep_view();
        out.push(line);
        assert(out.deep_view() =~= before.push(line@));
        i = i + 1;
    }
    assert(fs@.subrange(0, fs@.len() as int) =~= fs@);
    Ok(out)
}

fn render_case(c: &EnumCase) -> (r: Result<String, NamingError>)
    ensures
        match r {
            Ok(l) => case_line(*c) == Ok::<Seq<char>, NameFault>(l@),
            Err(e) => case_line(*c) matches Err(f) && err_agrees(e, f),
        },
{
    validate_name(c.name.as_str(), "Enum variant")?;
    let name = to_kebab_case(c.name.as_str());
    match &c.fields {
        Fields::Unnamed(v) => {
            if v.len() == 1 {
                let mut used: Vec<String> = Vec::new();
                assert(used.deep_view() =~= Seq::<Seq<char>>::empty());
                let ty = rust_type_to_wit(&v[0], &mut used)?;
                let mut line = indented(&name, "(");
                line.append(ty.as_str());
                line.append(")");
                return Ok(line);
            }
        },
        _ => {},
    }
    proof {
        reveal_strlit("");
    }
    assert(""@ =~= Seq::<char>::empty());
    Ok(indented(&name, ""))
}

fn render_cases(cs: &Vec<EnumCase>) -> (r: Result<Vec<String>, NamingError>)
    ensures
        match r {
            Ok(v) => case_lines(cs@) == Ok::<Seq<Seq<char>>, NameFault>(v.deep_view()),
            Err(e) => case_lines(cs@) matches Err(f) && err_agrees(e, f),
        },
{
    let mut out: Vec<String> = Vec::new();
    assert(out.deep_view() =~= Seq::<Seq<char>>::empty());
    let mut i: usize = 0;
    while i < cs.len()
        invariant
            i <= cs@.len(),
            case_lines(cs@.subrange(0, i as int)) == Ok::<Seq<Seq<char>>, NameFault>(
                out.deep_view(),
            ),
        decreases cs@.len() - i,
    {
        let ghost t = cs@.subrange(0, i + 1);
        assert(t.drop_last() =~= cs@.subrange(0, i as int));
        let line = match render_case(&cs[i]) {
            Ok(l) => l,
            Err(e) => {
                proof {
                    lemma_case_lines_err(cs@, i + 1);
                }
                return Err(e);
            },
        };
        let ghost before = out.deep_view();
        out.push(line);
        assert(out.deep_view() =~= before.push(line@));
        i = i + 1;
    }
    assert(cs@.subrange(0, cs@.len() as int) =~= cs@);
    Ok(out)
}

fn render_block(word: &str, name: &String, lines: &Vec<String>) -> (r: String)
    ensures
        r@ == block_text(word@, name@, lines.deep_view()),
{
    let mut out = "    ".to_string();
    out.append(word);
    out.append(" ");
    out.append(name.as_str());
    out.append(" {\n");
    let body = crate::mapper::join_strings(lines, ",\n");
    out.append(body.as_str());
    out.append("\n    }");
    out
}

/// Stores `text` under `name`, replacing an entry of that name.
fn put(defs: &mut Vec<TypeDef>, name: String, text: String)
    requires
        keys_unique(defs_view(old(defs)@)),
    ensures
        defs_view(final(defs)@) == upsert(defs_view(old(defs)@), name@, text@),
        keys_unique(defs_view(final(defs)@)),
{
    let ghost m = defs_view(defs@);
    let mut i: usize = 0;
    while i < defs.len()
        invariant
            m == defs_view(defs@),
            m == defs_view(old(defs)@),
            keys_unique(m),
            i <= defs@.len(),
            forall|t: int| 0 <= t < i ==> (#[trigger] m[t]).0 != name@,
        decreases defs@.len() - i,
    {
        if crate::mapper::same(&defs[i].name, name.as_str()) {
            assert(m[i as int].0 == name@);
            assert(has_key(m, name@));
            assert((choose|j: int| 0 <= j < m.len() && (#[trigger] m[j]).0 == name@) == i);
            let ghost n = name@;
            let ghost x = text@;
            defs.set(i, TypeDef { name, text });
            assert(defs_view(defs@) =~= m.update(i as int, (n, x)));
            return;
        }
        i = i + 1;
    }
    assert(!has_key(m, name@));
    let ghost n = name@;
    let ghost x = text@;
    defs.push(TypeDef { name, text });
    assert(defs_view(defs@) =~= m.push((n, x)));
}

/// Renders the top-level record and enum declarations of a module, keyed by
/// normalized name.
pub fn collect_type_definitions(file: &SourceFile) -> (r: Result<Vec<TypeDef>, NamingError>)
    ensures
        match r {
            Ok(v) => collect_defs(file.items@) == Ok::<Seq<(Seq<char>, Seq<char>)>, NameFault>(
                defs_view(v@),
            ) && keys_unique(defs_view(v@)),
            Err(e) => collect_defs(file.items@) matches Err(f) && err_agrees(e, f),
        },
{
    let items = &file.items;
    let mut defs: Vec<TypeDef> = Vec::new();
    let mut i: usize = 0;
    assert(defs_view(defs@) =~= Seq::<(Seq<char>, Seq<char>)>::empty());
    while i < items.len()
        invariant
            items == &file.items,
            i <= items@.len(),
            collect_defs(items@.subrange(0, i as int)) == Ok::<
                Seq<(Seq<char>, Seq<char>)>,
                NameFault,
            >(defs_view(defs@)),
            keys_unique(defs_view(defs@)),
        decreases items@.len() - i,
    {
        let ghost t = items@.subrange(0, i + 1);
        assert(t.drop_last() =~= items@.subrange(0, i as int));
        match &items[i] {
            Item::Struct(sd) => {
                if let Err(e) = validate_name(sd.name.as_str(), "Struct") {
                    proof {
                        lemma_collect_defs_err(items@, i + 1);
                    }
                    return Err(e);
                }
                match &sd.fields {
                    Fields::Named(fs) => {
                        let lines = match render_fields(fs) {
                            Ok(l) => l,
                            Err(e) => {
                                proof {
                                    lemma_collect_defs_err(items@, i + 1);
                                }
                                return Err(e);
                            },
                        };
                        if lines.len() > 0 {
                            let name = to_kebab_case(sd.name.as_str());
                            let text = render_block("record", &name, &lines);
                            proof {
                                reveal_strlit("record");
                            }
                            put(&mut defs, name, text);
                        }
                    },
                    _ => {},
                }
            },
            Item::Enum(ed) => {
                if let Err(e) = validate_name(ed.name.as_str(), "Enum") {
                    proof {
                        lemma_collect_defs_err(items@, i + 1);
                    }
                    return Err(e);
                }
                let lines = match render_cases(&ed.cases) {
                    Ok(l) => l,
                    Err(e) => {
                        proof {
                            lemma_collect_defs_err(items@, i + 1);
                        }
                        return Err(e);
                    },
                };
                let name = to_kebab_case(ed.name.as_str());
                let text = render_block("variant", &name, &lines);
                put(&mut defs, name, text);
            },
            _ => {},
        }
        i = i + 1;
    }
    assert(items@.subrange(0, items@.len() as int) =~= items@);
    Ok(defs)
}

/// A struct without named fields never enters the declarations: adding it
/// leaves them as they were, when it is accepted at all.
pub proof fn lemma_empty_record_omitted(items: Seq<Item>, sd: StructDecl)
    requires
        match sd.fields {
            Fields::Named(fs) => fs@.len() == 0,
            _ => true,
        },
    ensures
        collect_defs(items.push(Item::Struct(sd))) is Ok ==> collect_defs(
            items.push(Item::Struct(sd)),
        ) == collect_defs(items),
{
    assert(items.push(Item::Struct(sd)).drop_last() =~= items);
}

/// An enum always enters the declarations under its normalized name, even
/// with no cases.
pub proof fn lemma_enum_always_kept(items: Seq<Item>, ed: EnumDecl)
    ensures
        collect_defs(items.push(Item::Enum(ed))) matches Ok(m) ==> has_key(m, kebab(ed.name@)),
{
    let all = items.push(Item::Enum(ed));
    assert(all.drop_last() =~= items);
    if let Ok(m) = collect_defs(all) {
        let k = kebab(ed.name@);
        if let Ok(m0) = collect_defs(items) {
            if let Ok(ls) = case_lines(ed.cases@) {
                let v = block_text("variant"@, k, ls);
                if has_key(m0, k) {
                    let i = choose|i: int| 0 <= i < m0.len() && (#[trigger] m0[i]).0 == k;
                    assert(upsert(m0, k, v)[i].0 == k);
                } else {
                    assert(m0.push((k, v))[m0.len() as int].0 == k);
                }
            }
        }
    }
}

} // verus!
