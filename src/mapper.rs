use vstd::prelude::*;
use crate::model::TypeExpr;
use crate::naming::{kebab, name_ok, reports, to_kebab_case, validate_name, NamingError};

verus! {

/// Items joined with a separator between neighbours.
pub open spec fn join(v: Seq<Seq<char>>, sep: Seq<char>) -> Seq<char>
    decreases v.len(),
{
    if v.len() == 0 {
        Seq::empty()
    } else if v.len() == 1 {
        v[0]
    } else {
        join(v.drop_last(), sep) + sep + v.last()
    }
}

pub proof fn lemma_join_push(v: Seq<Seq<char>>, sep: Seq<char>, x: Seq<char>)
    ensures
        join(v.push(x), sep) == if v.len() == 0 { x } else { join(v, sep) + sep + x },
{
    assert(v.push(x).drop_last() =~= v);
}

/// Adds a name to a list of distinct names unless it is there already.
pub open spec fn note_used(used: Seq<Seq<char>>, n: Seq<char>) -> Seq<Seq<char>> {
    if used.contains(n) {
        used
    } else {
        used.push(n)
    }
}

/// The fixed spelling of a primitive source type, if `n` names one.
pub open spec fn primitive_wit(n: Seq<char>) -> Option<Seq<char>> {
    if n == "i32"@ {
        Some("s32"@)
    } else if n == "u32"@ {
        Some("u32"@)
    } else if n == "i64"@ {
        Some("s64"@)
    } else if n == "u64"@ {
        Some("u64"@)
    } else if n == "f32"@ {
        Some("f32"@)
    } else if n == "f64"@ {
        Some("f64"@)
    } else if n == "String"@ {
        Some("string"@)
    } else if n == "bool"@ {
        Some("bool"@)
    } else {
        None
    }
}

/// Wraps a mapped inner type as `open inner close`, passing an error on.
pub open spec fn wrap(r: Result<Seq<char>, Seq<char>>, open: Seq<char>, close: Seq<char>) -> Result<
    Seq<char>,
    Seq<char>,
> {
    match r {
        Ok(x) => Ok(open + x + close),
        Err(e) => Err(e),
    }
}

/// The interface type of a source type, together with the list of used
/// custom names after it. An error carries the rejected custom type name.
pub open spec fn map_type(t: TypeExpr, used: Seq<Seq<char>>) -> (Result<Seq<char>, Seq<char>>, Seq<
    Seq<char>,
>)
    decreases t,
{
    match t {
        TypeExpr::Path { ident, first_arg } => {
            if primitive_wit(ident@) is Some {
                (Ok(primitive_wit(ident@)->0), used)
            } else if ident@ == "Vec"@ {
                match first_arg {
                    Some(a) => {
                        let (r, u) = map_type(*a, used);
                        (wrap(r, "list<"@, ">"@), u)
                    },
                    None => (Ok("list<any>"@), used),
                }
            } else if ident@ == "Option"@ {
                match first_arg {
                    Some(a) => {
                        let (r, u) = map_type(*a, used);
                        (wrap(r, "option<"@, ">"@), u)
                    },
                    None => (Ok("option<any>"@), used),
                }
            } else if name_ok(ident@) {
                (Ok(kebab(ident@)), note_used(used, kebab(ident@)))
            } else {
                (Err(ident@), used)
            }
        },
        TypeExpr::Reference(b) => map_type(*b, used),
        TypeExpr::Tuple(v) => {
            if v@.len() == 0 {
                (Ok("unit"@), used)
            } else {
                let (r, u) = map_elems(v@, used);
                match r {
                    Ok(parts) => (Ok("tuple<"@ + join(parts, ", "@) + ">"@), u),
                    Err(e) => (Err(e), u),
                }
            }
        },
        TypeExpr::Other => (Ok("unknown"@), used),
    }
}

/// The elements of a tuple mapped in order, stopping at the first error.
pub open spec fn map_elems(s: Seq<TypeExpr>, used: Seq<Seq<char>>) -> (Result<
    Seq<Seq<char>>,
    Seq<char>,
>, Seq<Seq<char>>)
    decreases s,
{
    if s.len() == 0 {
        (Ok(Seq::empty()), used)
    } else {
        let (r, u) = map_elems(s.drop_last(), used);
        match r {
            Err(e) => (Err(e), u),
            Ok(v) => {
                let (r2, u2) = map_type(s.last(), u);
                match r2 {
                    Ok(x) => (Ok(v.push(x)), u2),
                    Err(e) => (Err(e), u2),
                }
            },
        }
    }
}

/// An error met in a prefix of the elements is the error of the whole.
pub proof fn lemma_map_elems_err(s: Seq<TypeExpr>, used: Seq<Seq<char>>, k: int)
    requires
        0 <= k <= s.len(),
        map_elems(s.subrange(0, k), used).0 is Err,
    ensures
        map_elems(s, used) == map_elems(s.subrange(0, k), used),
    decreases s.len() - k,
{
    if k < s.len() {
        let t = s.subrange(0, k + 1);
        assert(t.drop_last() =~= s.subrange(0, k));
        lemma_map_elems_err(s, used, k + 1);
    } else {
        assert(s.subrange(0, k) =~= s);
    }
}

/// The executable result of a mapping agrees with its model: text for
/// `Ok`, and for `Err` an error of category "Type" on the rejected name.
pub open spec fn agrees(r: Result<String, NamingError>, m: Result<Seq<char>, Seq<char>>) -> bool {
    match r {
        Ok(s) => m == Ok::<Seq<char>, Seq<char>>(s@),
        Err(e) => m == Err::<Seq<char>, Seq<char>>(e.name@) && reports(e, "Type"@, e.name@),
    }
}

/// The strings joined with `sep` between neighbours.
pub fn join_strings(v: &Vec<String>, sep: &str) -> (r: String)
    ensures
        r@ == join(v.deep_view(), sep@),
{
    let mut out = String::new();
    let mut i: usize = 0;
    while i < v.len()
        invariant
            i <= v@.len(),
            out@ == join(v.deep_view().subrange(0, i as int), sep@),
        decreases v@.len() - i,
    {
        proof {
            lemma_join_push(v.deep_view().subrange(0, i as int), sep@, v.deep_view()[i as int]);
            assert(v.deep_view().subrange(0, i + 1) =~= v.deep_view().subrange(0, i as int).push(
                v.deep_view()[i as int],
            ));
        }
        if i > 0 {
            out.append(sep);
        }
        out.append(v[i].as_str());
        i = i + 1;
    }
    assert(v.deep_view().subrange(0, v@.len() as int) =~= v.deep_view());
    out
}

pub(crate) fn same(a: &String, b: &str) -> (r: bool)
    ensures
        r == (a@ == b@),
{
    *a == b.to_string()
}

fn add_used(used: &mut Vec<String>, n: String)
    ensures
        final(used).deep_view() == note_used(old(used).deep_view(), n@),
{
    let mut i: usize = 0;
    while i < used.len()
        invariant
            i <= used@.len(),
            forall|t: int| 0 <= t < i ==> used.deep_view()[t] != n@,
        decreases used@.len() - i,
    {
        if used[i] == n {
            assert(used.deep_view()[i as int] == n@);
            return;
        }
        i = i + 1;
    }
    let ghost before = used.deep_view();
    assert(!before.contains(n@));
    used.push(n);
    assert(used.deep_view() =~= before.push(n@));
}

fn wrap_text(open: &str, inner: &String, close: &str) -> (r: String)
    ensures
        r@ == open@ + inner@ + close@,
{
    let mut out = open.to_string();
    out.append(inner.as_str());
    out.append(close);
    out
}

/// Maps a source type expression to interface type text, adding each custom
/// type name it references to `used` (a list of distinct names).
pub fn rust_type_to_wit(ty: &TypeExpr, used: &mut Vec<String>) -> (r: Result<String, NamingError>)
    ensures
        agrees(r, map_type(*ty, old(used).deep_view()).0),
        final(used).deep_view() == map_type(*ty, old(used).deep_view()).1,
    decreases ty,
{
    match ty {
        TypeExpr::Path { ident, first_arg } => {
            if same(ident, "i32") {
                Ok("s32".to_string())
            } else if same(ident, "u32") {
                Ok("u32".to_string())
            } else if same(ident, "i64") {
                Ok("s64".to_string())
            } else if same(ident, "u64") {
                Ok("u64".to_string())
            } else if same(ident, "f32") {
                Ok("f32".to_string())
            } else if same(ident, "f64") {
                Ok("f64".to_string())
            } else if same(ident, "String") {
                Ok("string".to_string())
            } else if same(ident, "bool") {
                Ok("bool".to_string())
            } else if same(ident, "Vec") || same(ident, "Option") {
                let is_list = same(ident, "Vec");
                match first_arg {
                    Some(a) => {
                        let inner = rust_type_to_wit(a, used)?;
                        if is_list {
                            Ok(wrap_text("list<", &inner, ">"))
                        } else {
                            Ok(wrap_text("option<", &inner, ">"))
                        }
                    },
                    None => {
                        if is_list {
                            Ok("list<any>".to_string())
                        } else {
                            Ok("option<any>".to_string())
                        }
                    },
                }
            } else {
                validate_name(ident.as_str(), "Type")?;
                let k = to_kebab_case(ident.as_str());
                add_used(used, k.clone());
                Ok(k)
            }
        },
        TypeExpr::Reference(b) => rust_type_to_wit(b, used),
        TypeExpr::Tuple(elems) => {
            if elems.len() == 0 {
                return Ok("unit".to_string());
            }
            let ghost used0 = old(used).deep_view();
            let mut out = "tuple<".to_string();
            let ghost mut parts: Seq<Seq<char>> = Seq::empty();
            let mut i: usize = 0;
            while i < elems.len()
                invariant
                    *ty == TypeExpr::Tuple(*elems),
                    used0 == old(used).deep_view(),
                    elems@.len() > 0,
                    i <= elems@.len(),
                    map_elems(elems@.subrange(0, i as int), used0) == (
                    Ok::<Seq<Seq<char>>, Seq<char>>(parts), used.deep_view()),
                    out@ == "tuple<"@ + join(parts, ", "@),
                    parts.len() == i,
                decreases elems@.len() - i,
            {
                assert(elems@.subrange(0, i + 1).drop_last() =~= elems@.subrange(0, i as int));
                assert(elems@.subrange(0, i + 1).last() == elems@[i as int]);
                assert(decreases_to!(*ty => (*ty)->Tuple_0));
                assert(decreases_to!(*elems => elems@));
                assert(decreases_to!(elems@ => elems@[i as int]));
                assert(decreases_to!(*ty => elems@[i as int]));
                let x = match rust_type_to_wit(&elems[i], used) {
                    Ok(x) => x,
                    Err(e) => {
                        proof {
                            let t = elems@.subrange(0, i + 1);
                            assert(map_type(elems@[i as int], map_elems(t.drop_last(), used0).1).0
                                == Err::<Seq<char>, Seq<char>>(e.name@));
                            assert(map_elems(t, used0).0 == Err::<Seq<Seq<char>>, Seq<char>>(e.name@));
                            lemma_map_elems_err(elems@, used0, i + 1);
                            assert(map_elems(elems@, used0).0 == Err::<Seq<Seq<char>>, Seq<char>>(e.name@));
                        }
                        return Err(e);
                    },
                };
                proof {
                    lemma_join_push(parts, ", "@, x@);
                }
                if i > 0 {
                    out.append(", ");
                }
                out.append(x.as_str());
                proof {
                    parts = parts.push(x@);
                }
                i = i + 1;
            }
            assert(elems@.subrange(0, elems@.len() as int) =~= elems@);
            out.append(">");
            Ok(out)
        },
        TypeExpr::Other => Ok("unknown".to_string()),
    }
}

/// Each primitive source type maps to its fixed spelling, leaving the used
/// names alone, and no two primitives share a spelling.
pub proof fn lemma_primitive_spellings(a: TypeExpr, b: TypeExpr, used: Seq<Seq<char>>)
    requires
        a.path_ident_spec() matches Some(x) && primitive_wit(x) is Some,
        b.path_ident_spec() matches Some(y) && primitive_wit(y) is Some,
    ensures
        map_type(a, used) == (Ok::<Seq<char>, Seq<char>>(
            primitive_wit(a.path_ident_spec()->0)->0,
        ), used),
        a.path_ident_spec() != b.path_ident_spec() ==> map_type(a, used).0 != map_type(b, used).0,
{
    reveal_strlit("i32");
    reveal_strlit("u32");
    reveal_strlit("i64");
    reveal_strlit("u64");
    reveal_strlit("f32");
    reveal_strlit("f64");
    reveal_strlit("String");
    reveal_strlit("bool");
    reveal_strlit("s32");
    reveal_strlit("s64");
    reveal_strlit("string");
    assert("s32"@ != "u32"@) by { assert("s32"@[0] != "u32"@[0]); }
    assert("s32"@ != "s64"@) by { assert("s32"@[1] != "s64"@[1]); }
    assert("s32"@ != "u64"@) by { assert("s32"@[0] != "u64"@[0]); }
    assert("s32"@ != "f32"@) by { assert("s32"@[0] != "f32"@[0]); }
    assert("s32"@ != "f64"@) by { assert("s32"@[0] != "f64"@[0]); }
    assert("s32"@ != "string"@) by { assert("s32"@.len() != "string"@.len()); }
    assert("s32"@ != "bool"@) by { assert("s32"@.len() != "bool"@.len()); }
    assert("u32"@ != "s64"@) by { assert("u32"@[0] != "s64"@[0]); }
    assert("u32"@ != "u64"@) by { assert("u32"@[1] != "u64"@[1]); }
    assert("u32"@ != "f32"@) by { assert("u32"@[0] != "f32"@[0]); }
    assert("u32"@ != "f64"@) by { assert("u32"@[0] != "f64"@[0]); }
    assert("u32"@ != "string"@) by { assert("u32"@.len() != "string"@.len()); }
    assert("u32"@ != "bool"@) by { assert("u32"@.len() != "bool"@.len()); }
    assert("s64"@ != "u64"@) by { assert("s64"@[0] != "u64"@[0]); }
    assert("s64"@ != "f32"@) by { assert("s64"@[0] != "f32"@[0]); }
    assert("s64"@ != "f64"@) by { assert("s64"@[0] != "f64"@[0]); }
    assert("s64"@ != "string"@) by { assert("s64"@.len() != "string"@.len()); }
    assert("s64"@ != "bool"@) by { assert("s64"@.len() != "bool"@.len()); }
    assert("u64"@ != "f32"@) by { assert("u64"@[0] != "f32"@[0]); }
    assert("u64"@ != "f64"@) by { assert("u64"@[0] != "f64"@[0]); }
    assert("u64"@ != "string"@) by { assert("u64"@.len() != "string"@.len()); }
    assert("u64"@ != "bool"@) by { assert("u64"@.len() != "bool"@.len()); }
    assert("f32"@ != "f64"@) by { assert("f32"@[1] != "f64"@[1]); }
    assert("f32"@ != "string"@) by { assert("f32"@.len() != "string"@.len()); }
    assert("f32"@ != "bool"@) by { assert("f32"@.len() != "bool"@.len()); }
    assert("f64"@ != "string"@) by { assert("f64"@.len() != "string"@.len()); }
    assert("f64"@ != "bool"@) by { assert("f64"@.len() != "bool"@.len()); }
    assert("string"@ != "bool"@) by { assert("string"@.len() != "bool"@.len()); }
}

/// Lists and options map structurally: `Vec<T>` becomes `list<`T`>` and
/// `Option<T>` becomes `option<`T`>` for the mapping of T, with T's used
/// names.
pub proof fn lemma_containers_recursive(ident: String, t: TypeExpr, used: Seq<Seq<char>>)
    ensures
        ident@ == "Vec"@ ==> map_type(TypeExpr::Path { ident, first_arg: Some(Box::new(t)) }, used)
            == (wrap(map_type(t, used).0, "list<"@, ">"@), map_type(t, used).1),
        ident@ == "Option"@ ==> map_type(
            TypeExpr::Path { ident, first_arg: Some(Box::new(t)) },
            used,
        ) == (wrap(map_type(t, used).0, "option<"@, ">"@), map_type(t, used).1),
{
    reveal_strlit("i32");
    reveal_strlit("u32");
    reveal_strlit("i64");
    reveal_strlit("u64");
    reveal_strlit("f32");
    reveal_strlit("f64");
    reveal_strlit("String");
    reveal_strlit("bool");
    reveal_strlit("Vec");
    reveal_strlit("Option");
    assert("Vec"@ != "i32"@) by { assert("Vec"@[0] != "i32"@[0]); }
    assert("Vec"@ != "u32"@) by { assert("Vec"@[0] != "u32"@[0]); }
    assert("Vec"@ != "i64"@) by { assert("Vec"@[0] != "i64"@[0]); }
    assert("Vec"@ != "u64"@) by { assert("Vec"@[0] != "u64"@[0]); }
    assert("Vec"@ != "f32"@) by { assert("Vec"@[0] != "f32"@[0]); }
    assert("Vec"@ != "f64"@) by { assert("Vec"@[0] != "f64"@[0]); }
    assert("Vec"@ != "String"@) by { assert("Vec"@.len() != "String"@.len()); }
    assert("Vec"@ != "bool"@) by { assert("Vec"@.len() != "bool"@.len()); }
    assert("Option"@ != "i32"@) by { assert("Option"@.len() != "i32"@.len()); }
    assert("Option"@ != "u32"@) by { assert("Option"@.len() != "u32"@.len()); }
    assert("Option"@ != "i64"@) by { assert("Option"@.len() != "i64"@.len()); }
    assert("Option"@ != "u64"@) by { assert("Option"@.len() != "u64"@.len()); }
    assert("Option"@ != "f32"@) by { assert("Option"@.len() != "f32"@.len()); }
    assert("Option"@ != "f64"@) by { assert("Option"@.len() != "f64"@.len()); }
    assert("Option"@ != "String"@) by { assert("Option"@[0] != "String"@[0]); }
    assert("Option"@ != "bool"@) by { assert("Option"@.len() != "bool"@.len()); }
    assert("Vec"@ != "Option"@) by { assert("Vec"@.len() != "Option"@.len()); }
}

} // verus!
