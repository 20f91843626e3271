use vstd::prelude::*;
use crate::collect::{
    collect_defs, collect_type_definitions, defs_view, err_agrees, has_key, keys_unique, lookup,
    NameFault, TypeDef,
};
use crate::mapper::{join, join_strings, map_type, rust_type_to_wit, same};
use crate::model::{Attr, ImplBlock, Method, Param, SourceFile};
use crate::naming::{kebab, name_ok, remove_state_suffix, strip_state, to_kebab_case, validate_name, NamingError};
use crate::text::{contains_seq, contains_str};

verus! {

/// Some attribute of the list is the single identifier `m`.
pub open spec fn ident_of(a: Attr) -> Option<Seq<char>> {
    match a.ident {
        Some(s) => Some(s@),
        None => None,
    }
}

pub open spec fn has_marker(attrs: Seq<Attr>, m: Seq<char>) -> bool {
    exists|i: int| 0 <= i < attrs.len() && ident_of(#[trigger] attrs[i]) == Some(m)
}

/// A method is exported when it carries a remote, local or http marker.
pub open spec fn exported(m: Method) -> bool {
    has_marker(m.attrs@, "remote"@) || has_marker(m.attrs@, "local"@) || has_marker(
        m.attrs@,
        "http"@,
    )
}

/// One comment line per marker, in the order remote, local, http.
pub open spec fn marker_comments(m: Method) -> Seq<char> {
    (if has_marker(m.attrs@, "remote"@) { "    //remote\n"@ } else { Seq::empty() }) + (if has_marker(
        m.attrs@,
        "local"@,
    ) {
        "    //local\n"@
    } else {
        Seq::empty()
    }) + (if has_marker(m.attrs@, "http"@) { "    //http\n"@ } else { Seq::empty() })
}

/// The rendered parameters of a method, with the used custom names after
/// them; receivers, parameters without a plain name and a parameter named
/// `self` are skipped.
pub open spec fn param_texts(ps: Seq<Param>, used: Seq<Seq<char>>) -> (Result<
    Seq<Seq<char>>,
    NameFault,
>, Seq<Seq<char>>)
    decreases ps.len(),
{
    if ps.len() == 0 {
        (Ok(Seq::empty()), used)
    } else {
        let (r, u) = param_texts(ps.drop_last(), used);
        match r {
            Err(e) => (Err(e), u),
            Ok(v) => match ps.last() {
                Param::Typed { binding: Some(n), ty } => {
                    if n@ == "self"@ {
                        (Ok(v), u)
                    } else if !name_ok(n@) {
                        (Err(("Parameter"@, n@)), u)
                    } else {
                        let (r2, u2) = map_type(ty, u);
                        match r2 {
                            Ok(t) => (Ok(v.push(kebab(n@) + ": "@ + t)), u2),
                            Err(x) => (Err(("Type"@, x)), u2),
                        }
                    }
                },
                _ => (Ok(v), u),
            },
        }
    }
}

pub open spec fn signature_text(
    comments: Seq<char>,
    name: Seq<char>,
    params: Seq<Seq<char>>,
    ret: Seq<char>,
) -> Seq<char> {
    comments + "    "@ + name + ": func(target: address"@ + (if params.len() == 0 {
        Seq::empty()
    } else {
        ", "@ + join(params, ", "@)
    }) + ") -> "@ + ret + ";"@
}

/// The rendered function of a method: `None` when it is not exported.
pub open spec fn method_text(m: Method, used: Seq<Seq<char>>) -> (Result<
    Option<Seq<char>>,
    NameFault,
>, Seq<Seq<char>>) {
    if !exported(m) {
        (Ok(None), used)
    } else if !name_ok(m.name@) {
        (Err(("Function"@, m.name@)), used)
    } else {
        let (r, u) = param_texts(m.params@, used);
        match r {
            Err(e) => (Err(e), u),
            Ok(ps) => match m.output {
                Some(t) => {
                    let (r2, u2) = map_type(t, u);
                    match r2 {
                        Ok(rt) => (Ok(
                            Some(
                                signature_text(
                                    marker_comments(m),
                                    kebab(m.name@),
                                    ps,
                                    "result<"@ + rt + ", string>"@,
                                ),
                            ),
                        ), u2),
                        Err(x) => (Err(("Type"@, x)), u2),
                    }
                },
                None => (Ok(
                    Some(
                        signature_text(
                            marker_comments(m),
                            kebab(m.name@),
                            ps,
                            "result<unit, string>"@,
                        ),
                    ),
                ), u),
            },
        }
    }
}

/// The rendered functions of the exported methods, in order.
pub open spec fn method_texts(ms: Seq<Method>, used: Seq<Seq<char>>) -> (Result<
    Seq<Seq<char>>,
    NameFault,
>, Seq<Seq<char>>)
    decreases ms.len(),
{
    if ms.len() == 0 {
        (Ok(Seq::empty()), used)
    } else {
        let (r, u) = method_texts(ms.drop_last(), used);
        match r {
            Err(e) => (Err(e), u),
            Ok(v) => {
                let (r2, u2) = method_text(ms.last(), u);
                match r2 {
                    Err(e) => (Err(e), u2),
                    Ok(None) => (Ok(v), u2),
                    Ok(Some(t)) => (Ok(v.push(t)), u2),
                }
            },
        }
    }
}

/// How many declarations have a name not yet in `done` (among the first `n`).
pub open spec fn pending(defs: Seq<(Seq<char>, Seq<char>)>, done: Seq<Seq<char>>, n: int) -> nat
    decreases n,
{
    if n <= 0 {
        0
    } else {
        pending(defs, done, n - 1) + if done.contains(defs[n - 1].0) {
            0nat
        } else {
            1nat
        }
    }
}

pub proof fn lemma_pending_insert(
    defs: Seq<(Seq<char>, Seq<char>)>,
    done: Seq<Seq<char>>,
    x: Seq<char>,
    n: int,
)
    requires
        0 <= n <= defs.len(),
    ensures
        pending(defs, done.push(x), n) <= pending(defs, done, n),
        !done.contains(x) && (exists|i: int| 0 <= i < n && (#[trigger] defs[i]).0 == x) ==> pending(
            defs,
            done.push(x),
            n,
        ) < pending(defs, done, n),
    decreases n,
{
    if n > 0 {
        lemma_pending_insert(defs, done, x, n - 1);
        let k = defs[n - 1].0;
        assert(done.push(x).contains(k) <==> (done.contains(k) || k == x)) by {
            if done.push(x).contains(k) {
                let j = choose|j: int| 0 <= j < done.push(x).len() && done.push(x)[j] == k;
                if j < done.len() {
                    assert(done[j] == k);
                }
            }
            if done.contains(k) {
                let j = choose|j: int| 0 <= j < done.len() && done[j] == k;
                assert(done.push(x)[j] == k);
            }
            if k == x {
                assert(done.push(x)[done.len() as int] == k);
            }
        }
    }
}

/// The names of the declarations, among the first `n`, whose name occurs in
/// `text` and is not yet in `done`, in declaration order.
pub open spec fn refs_in(
    defs: Seq<(Seq<char>, Seq<char>)>,
    text: Seq<char>,
    done: Seq<Seq<char>>,
    n: int,
) -> Seq<Seq<char>>
    decreases n,
{
    if n <= 0 {
        Seq::empty()
    } else {
        let k = defs[n - 1].0;
        refs_in(defs, text, done, n - 1) + if contains_seq(text, k) && !done.contains(k) {
            seq![k]
        } else {
            Seq::empty()
        }
    }
}

/// The declarations reached from a stack of names: pop a name; skip it if
/// done; else mark it done and, when it is declared, emit it and push the
/// declared names that occur in its text and are not done.
pub open spec fn closure_from(
    defs: Seq<(Seq<char>, Seq<char>)>,
    stack: Seq<Seq<char>>,
    done: Seq<Seq<char>>,
) -> Seq<Seq<char>>
    decreases pending(defs, done, defs.len() as int), stack.len(),
{
    if stack.len() == 0 {
        Seq::empty()
    } else {
        let n = stack.last();
        let rest = stack.drop_last();
        if done.contains(n) {
            closure_from(defs, rest, done)
        } else {
            proof {
                lemma_pending_insert(defs, done, n, defs.len() as int);
            }
            match lookup(defs, n) {
                None => closure_from(defs, rest, done.push(n)),
                Some(text) => seq![n] + closure_from(
                    defs,
                    rest + refs_in(defs, text, done.push(n), defs.len() as int),
                    done.push(n),
                ),
            }
        }
    }
}

/// The closure traversal emits each declaration at most once: what it emits
/// is declared, distinct, and not already done, whatever cycles the
/// declarations' texts form.
pub proof fn lemma_closure_visits_once(
    defs: Seq<(Seq<char>, Seq<char>)>,
    stack: Seq<Seq<char>>,
    done: Seq<Seq<char>>,
)
    ensures
        closure_from(defs, stack, done).no_duplicates(),
        forall|i: int|
            0 <= i < closure_from(defs, stack, done).len() ==> has_key(
                defs,
                #[trigger] closure_from(defs, stack, done)[i],
            ) && !done.contains(closure_from(defs, stack, done)[i]),
    decreases pending(defs, done, defs.len() as int), stack.len(),
{
    if stack.len() > 0 {
        let n = stack.last();
        let rest = stack.drop_last();
        if done.contains(n) {
            lemma_closure_visits_once(defs, rest, done);
        } else {
            lemma_pending_insert(defs, done, n, defs.len() as int);
            let d2 = done.push(n);
            match lookup(defs, n) {
                None => {
                    lemma_closure_visits_once(defs, rest, d2);
                    let r = closure_from(defs, rest, d2);
                    assert forall|i: int| 0 <= i < r.len() implies !done.contains(#[trigger] r[i]) by {
                        if done.contains(r[i]) {
                            let j = choose|j: int| 0 <= j < done.len() && done[j] == r[i];
                            assert(d2[j] == r[i]);
                        }
                    }
                },
                Some(text) => {
                    let st = rest + refs_in(defs, text, d2, defs.len() as int);
                    lemma_closure_visits_once(defs, st, d2);
                    let r = closure_from(defs, st, d2);
                    let full = seq![n] + r;
                    assert(d2[done.len() as int] == n);
                    assert forall|i: int| 0 <= i < r.len() implies !done.contains(#[trigger] r[i])
                        && r[i] != n by {
                        if done.contains(r[i]) {
                            let j = choose|j: int| 0 <= j < done.len() && done[j] == r[i];
                            assert(d2[j] == r[i]);
                        }
                    }
                    assert forall|i: int, j: int|
                        0 <= i < full.len() && 0 <= j < full.len() && i != j implies full[i]
                        != full[j] by {
                        if i > 0 && j > 0 {
                            assert(full[i] == r[i - 1] && full[j] == r[j - 1]);
                        } else if i == 0 {
                            assert(full[j] == r[j - 1]);
                        } else {
                            assert(full[i] == r[i - 1]);
                        }
                    }
                    assert forall|i: int| 0 <= i < full.len() implies has_key(defs, #[trigger] full[i])
                        && !done.contains(full[i]) by {
                        if i > 0 {
                            assert(full[i] == r[i - 1]);
                        }
                    }
                },
            }
        }
    }
}

/// The text stored under each of the names.
pub open spec fn texts_of(defs: Seq<(Seq<char>, Seq<char>)>, names: Seq<Seq<char>>) -> Seq<Seq<char>> {
    names.map_values(|n: Seq<char>| lookup(defs, n).unwrap_or(Seq::empty()))
}

pub open spec fn interface_text(name: Seq<char>, decls: Seq<Seq<char>>, funcs: Seq<Seq<char>>) -> Seq<char> {
    "interface "@ + name + " {\n"@ + "    use standard.{address};\n\n"@ + (if decls.len() == 0 {
        Seq::empty()
    } else {
        join(decls, "\n\n"@) + "\n\n"@
    }) + join(funcs, "\n"@) + "\n}\n"@
}

/// The interface text of an implementation block: empty when no method is
/// exported; else the import line, the declarations reached from the
/// custom types that the functions use, and the functions.
pub open spec fn interface_of(block: ImplBlock, iface: Seq<char>, file: SourceFile) -> Result<
    Seq<char>,
    NameFault,
> {
    let (r, used) = method_texts(block.methods@, Seq::empty());
    match r {
        Err(e) => Err(e),
        Ok(funcs) => match collect_defs(file.items@) {
            Err(e) => Err(e),
            Ok(defs) => if funcs.len() == 0 {
                Ok(Seq::empty())
            } else {
                let names = closure_from(defs, used, Seq::empty());
                Ok(interface_text(kebab(strip_state(iface)), texts_of(defs, names), funcs))
            },
        },
    }
}

/// A method without any export marker adds nothing to the rendered
/// functions and touches no used name.
pub proof fn lemma_unmarked_method_not_rendered(
    ms: Seq<Method>,
    m: Method,
    used: Seq<Seq<char>>,
)
    requires
        !exported(m),
    ensures
        method_texts(ms.push(m), used) == method_texts(ms, used),
{
    assert(ms.push(m).drop_last() =~= ms);
}

fn in_list(v: &Vec<String>, n: &String) -> (r: bool)
    ensures
        r == v.deep_view().contains(n@),
{
    let mut i: usize = 0;
    while i < v.len()
        invariant
            i <= v@.len(),
            forall|t: int| 0 <= t < i ==> v.deep_view()[t] != n@,
        decreases v@.len() - i,
    {
        if v[i] == *n {
            assert(v.deep_view()[i as int] == n@);
            return true;
        }
        i = i + 1;
    }
    false
}

fn find_def(defs: &Vec<TypeDef>, n: &String) -> (r: Option<usize>)
    requires
        keys_unique(defs_view(defs@)),
    ensures
        r matches Some(k) ==> k < defs@.len() && lookup(defs_view(defs@), n@) == Some(
            defs@[k as int].text@,
        ),
        r is None ==> lookup(defs_view(defs@), n@) is None,
{
    let ghost m = defs_view(defs@);
    let mut i: usize = 0;
    while i < defs.len()
        invariant
            m == defs_view(defs@),
            keys_unique(m),
            i <= defs@.len(),
            forall|t: int| 0 <= t < i ==> (#[trigger] m[t]).0 != n@,
        decreases defs@.len() - i,
    {
        if defs[i].name == *n {
            assert(m[i as int].0 == n@);
            assert(has_key(m, n@));
            assert((choose|j: int| 0 <= j < m.len() && (#[trigger] m[j]).0 == n@) == i);
            return Some(i);
        }
        i = i + 1;
    }
    None
}

fn copy_strings(v: &Vec<String>) -> (r: Vec<String>)
    ensures
        r.deep_view() == v.deep_view(),
{
    let mut out: Vec<String> = Vec::new();
    let mut i: usize = 0;
    while i < v.len()
        invariant
            i <= v@.len(),
            out.deep_view() =~= v.deep_view().subrange(0, i as int),
        decreases v@.len() - i,
    {
        let ghost before = out.deep_view();
        let c = v[i].clone();
        out.push(c);
        assert(out.deep_view() =~= before.push(c@));
        assert(v.deep_view().subrange(0, i + 1) =~= v.deep_view().subrange(0, i as int).push(
            v.deep_view()[i as int],
        ));
        i = i + 1;
    }
    assert(v.deep_view().subrange(0, v@.len() as int) =~= v.deep_view());
    out
}

/// The names of the declarations reached from the used names, each once, in
/// the order of the traversal.
pub fn type_closure(defs: &Vec<TypeDef>, used: &Vec<String>) -> (r: Vec<String>)
    requires
        keys_unique(defs_view(defs@)),
    ensures
        r.deep_view() == closure_from(defs_view(defs@), used.deep_view(), Seq::empty()),
{
    let ghost d = defs_view(defs@);
    let mut stack = copy_strings(used);
    let mut done: Vec<String> = Vec::new();
    let mut out: Vec<String> = Vec::new();
    assert(done.deep_view() =~= Seq::<Seq<char>>::empty());
    assert(out.deep_view() =~= Seq::<Seq<char>>::empty());
    while stack.len() > 0
        invariant
            d == defs_view(defs@),
            keys_unique(d),
            out.deep_view() + closure_from(d, stack.deep_view(), done.deep_view())
                == closure_from(d, used.deep_view(), Seq::empty()),
        decreases pending(d, done.deep_view(), d.len() as int), stack@.len(),
    {
        let ghost s0 = stack.deep_view();
        let ghost done0 = done.deep_view();
        let n = stack.pop().unwrap();
        assert(stack.deep_view() =~= s0.drop_last());
        assert(n@ == s0.last());
        if in_list(&done, &n) {
            continue;
        }
        proof {
            lemma_pending_insert(d, done0, n@, d.len() as int);
        }
        let idx = find_def(defs, &n);
        done.push(n.clone());
        assert(done.deep_view() =~= done0.push(n@));
        match idx {
            None => {},
            Some(k) => {
                let ghost out0 = out.deep_view();
                let ghost n0 = n@;
                out.push(n);
                assert(out.deep_view() =~= out0.push(n0));
                let text = &defs[k].text;
                let ghost base = stack.deep_view();
                let mut j: usize = 0;
                assert(base + refs_in(d, text@, done.deep_view(), 0) =~= base);
                while j < defs.len()
                    invariant
                        d == defs_view(defs@),
                        j <= defs@.len(),
                        stack.deep_view() == base + refs_in(d, text@, done.deep_view(), j as int),
                    decreases defs@.len() - j,
                {
                    let name = &defs[j].name;
                    let ghost before = stack.deep_view();
                    if contains_str(text.as_str(), name.as_str()) && !in_list(&done, name) {
                        stack.push(name.clone());
                        assert(stack.deep_view() =~= before.push(name@));
                    }
                    assert(d[j as int].0 == name@);
                    assert(base + refs_in(d, text@, done.deep_view(), j + 1) =~= base + refs_in(
                        d,
                        text@,
                        done.deep_view(),
                        j as int,
                    ) + if contains_seq(text@, name@) && !done.deep_view().contains(name@) {
                        seq![name@]
                    } else {
                        Seq::empty()
                    });
                    j = j + 1;
                }
                assert(out.deep_view() + closure_from(d, stack.deep_view(), done.deep_view())
                    =~= out0 + (seq![n0] + closure_from(d, stack.deep_view(), done.deep_view())));
            },
        }
    }
    assert(out.deep_view() + closure_from(d, stack.deep_view(), done.deep_view()) =~= out.deep_view());
    out
}

proof fn lemma_param_texts_err(s: Seq<Param>, used: Seq<Seq<char>>, k: int)
    requires
        0 <= k <= s.len(),
        param_texts(s.subrange(0, k), used).0 is Err,
    ensures
        param_texts(s, used) == param_texts(s.subrange(0, k), used),
    decreases s.len() - k,
{
    if k < s.len() {
        assert(s.subrange(0, k + 1).drop_last() =~= s.subrange(0, k));
        lemma_param_texts_err(s, used, k + 1);
    } else {
        assert(s.subrange(0, k) =~= s);
    }
}

proof fn lemma_method_texts_err(s: Seq<Method>, used: Seq<Seq<char>>, k: int)
    requires
        0 <= k <= s.len(),
        method_texts(s.subrange(0, k), used).0 is Err,
    ensures
        method_texts(s, used) == method_texts(s.subrange(0, k), used),
    decreases s.len() - k,
{
    if k < s.len() {
        assert(s.subrange(0, k + 1).drop_last() =~= s.subrange(0, k));
        lemma_method_texts_err(s, used, k + 1);
    } else {
        assert(s.subrange(0, k) =~= s);
    }
}

fn has_attr(attrs: &Vec<Attr>, m: &str) -> (r: bool)
    ensures
        r == has_marker(attrs@, m@),
{
    let mut i: usize = 0;
    while i < attrs.len()
        invariant
            i <= attrs@.len(),
            forall|t: int| 0 <= t < i ==> ident_of(#[trigger] attrs@[t]) != Some(m@),
        decreases attrs@.len() - i,
    {
        match &attrs[i].ident {
            Some(id) => {
                if same(id, m) {
                    assert(ident_of(attrs@[i as int]) == Some(m@));
                    return true;
                }
            },
            None => {},
        }
        i = i + 1;
    }
    false
}

fn render_params(ps: &Vec<Param>, used: &mut Vec<String>) -> (r: Result<Vec<String>, NamingError>)
    ensures
        final(used).deep_view() == param_texts(ps@, old(used).deep_view()).1,
        match r {
            Ok(v) => param_texts(ps@, old(used).deep_view()).0 == Ok::<Seq<Seq<char>>, NameFault>(
                v.deep_view(),
            ),
            Err(e) => param_texts(ps@, old(used).deep_view()).0 matches Err(f) && err_agrees(e, f),
        },
{
    let ghost used0 = old(used).deep_view();
    let mut out: Vec<String> = Vec::new();
    assert(out.deep_view() =~= Seq::<Seq<char>>::empty());
    let mut i: usize = 0;
    while i < ps.len()
        invariant
            used0 == old(used).deep_view(),
            i <= ps@.len(),
            param_texts(ps@.subrange(0, i as int), used0) == (Ok::<Seq<Seq<char>>, NameFault>(
                out.deep_view(),
            ), used.deep_view()),
        decreases ps@.len() - i,
    {
        let ghost t = ps@.subrange(0, i + 1);
        assert(t.drop_last() =~= ps@.subrange(0, i as int));
        match &ps[i] {
            Param::Typed { binding: Some(n), ty } => {
                if !same(n, "self") {
                    if let Err(e) = validate_name(n.as_str(), "Parameter") {
                        proof {
                            lemma_param_texts_err(ps@, used0, i + 1);
                        }
                        return Err(e);
                    }
                    let name = to_kebab_case(n.as_str());
                    let ty_text = match rust_type_to_wit(ty, used) {
                        Ok(x) => x,
                        Err(e) => {
                            proof {
                                lemma_param_texts_err(ps@, used0, i + 1);
                            }
                            return Err(e);
                        },
                    };
                    let mut line = name;
                    line.append(": ");
                    line.append(ty_text.as_str());
                    let ghost before = out.deep_view();
                    out.push(line);
                    assert(out.deep_view() =~= before.push(line@));
                }
            },
            _ => {},
        }
        i = i + 1;
    }
    assert(ps@.subrange(0, ps@.len() as int) =~= ps@);
    Ok(out)
}

fn render_signature(comments: &String, name: &String, params: &Vec<String>, ret: &String) -> (r:
    String)
    ensures
        r@ == signature_text(comments@, name@, params.deep_view(), ret@),
{
    let mut out = comments.clone();
    out.append("    ");
    out.append(name.as_str());
    out.append(": func(target: address");
    if params.len() > 0 {
        out.append(", ");
        let joined = join_strings(params, ", ");
        out.append(joined.as_str());
    } else {
        proof {
            reveal_strlit("");
        }
    }
    out.append(") -> ");
    out.append(ret.as_str());
    out.append(";");
    out
}

fn render_method(m: &Method, used: &mut Vec<String>) -> (r: Result<Option<String>, NamingError>)
    ensures
        final(used).deep_view() == method_text(*m, old(used).deep_view()).1,
        match r {
            Ok(Some(t)) => method_text(*m, old(used).deep_view()).0 == Ok::<
                Option<Seq<char>>,
                NameFault,
            >(Some(t@)),
            Ok(None) => method_text(*m, old(used).deep_view()).0 == Ok::<
                Option<Seq<char>>,
                NameFault,
            >(None),
            Err(e) => method_text(*m, old(used).deep_view()).0 matches Err(f) && err_agrees(e, f),
        },
{
    let remote = has_attr(&m.attrs, "remote");
    let local = has_attr(&m.attrs, "local");
    let http = has_attr(&m.attrs, "http");
    if !(remote || local || http) {
        return Ok(None);
    }
    validate_name(m.name.as_str(), "Function")?;
    let name = to_kebab_case(m.name.as_str());
    let params = render_params(&m.params, used)?;
    let ret = match &m.output {
        Some(t) => {
            let rt = rust_type_to_wit(t, used)?;
            let mut x = "result<".to_string();
            x.append(rt.as_str());
            x.append(", string>");
            x
        },
        None => "result<unit, string>".to_string(),
    };
    let mut comments = String::new();
    proof {
        reveal_strlit("");
    }
    if remote {
        comments.append("    //remote\n");
    }
    if local {
        comments.append("    //local\n");
    }
    if http {
        comments.append("    //http\n");
    }
    assert(comments@ =~= marker_comments(*m));
    Ok(Some(render_signature(&comments, &name, &params, &ret)))
}

fn render_methods(ms: &Vec<Method>, used: &mut Vec<String>) -> (r: Result<Vec<String>, NamingError>)
    ensures
        final(used).deep_view() == method_texts(ms@, old(used).deep_view()).1,
        match r {
            Ok(v) => method_texts(ms@, old(used).deep_view()).0 == Ok::<Seq<Seq<char>>, NameFault>(
                v.deep_view(),
            ),
            Err(e) => method_texts(ms@, old(used).deep_view()).0 matches Err(f) && err_agrees(e, f),
        },
{
    let ghost used0 = old(used).deep_view();
    let mut out: Vec<String> = Vec::new();
    assert(out.deep_view() =~= Seq::<Seq<char>>::empty());
    let mut i: usize = 0;
    while i < ms.len()
        invariant
            used0 == old(used).deep_view(),
            i <= ms@.len(),
            method_texts(ms@.subrange(0, i as int), used0) == (Ok::<Seq<Seq<char>>, NameFault>(
                out.deep_view(),
            ), used.deep_view()),
        decreases ms@.len() - i,
    {
        let ghost t = ms@.subrange(0, i + 1);
        assert(t.drop_last() =~= ms@.subrange(0, i as int));
        match render_method(&ms[i], used) {
            Ok(Some(text)) => {
                let ghost before = out.deep_view();
                out.push(text);
                assert(out.deep_view() =~= before.push(text@));
            },
            Ok(None) => {},
            Err(e) => {
                proof {
                    lemma_method_texts_err(ms@, used0, i + 1);
                }
                return Err(e);
            },
        }
        i = i + 1;
    }
    assert(ms@.subrange(0, ms@.len() as int) =~= ms@);
    Ok(out)
}

fn texts_for(defs: &Vec<TypeDef>, names: &Vec<String>) -> (r: Vec<String>)
    requires
        keys_unique(defs_view(defs@)),
    ensures
        r.deep_view() == texts_of(defs_view(defs@), names.deep_view()),
{
    let mut out: Vec<String> = Vec::new();
    let mut i: usize = 0;
    while i < names.len()
        invariant
            keys_unique(defs_view(defs@)),
            i <= names@.len(),
            out.deep_view() =~= texts_of(defs_view(defs@), names.deep_view()).subrange(0, i as int),
        decreases names@.len() - i,
    {
        let ghost before = out.deep_view();
        let t = match find_def(defs, &names[i]) {
            Some(k) => defs[k].text.clone(),
            None => String::new(),
        };
        out.push(t);
        assert(out.deep_view() =~= before.push(t@));
        i = i + 1;
    }
    out
}

/// Renders the interface of an implementation block whose type is named
/// `interface_name`; empty when the block exports no method.
pub fn generate_interface_wit_content(
    impl_item: &ImplBlock,
    interface_name: &str,
    ast: &SourceFile,
) -> (r: Result<String, NamingError>)
    ensures
        match r {
            Ok(t) => interface_of(*impl_item, interface_name@, *ast) == Ok::<Seq<char>, NameFault>(
                t@,
            ),
            Err(e) => interface_of(*impl_item, interface_name@, *ast) matches Err(f) && err_agrees(
                e,
                f,
            ),
        },
{
    let mut used: Vec<String> = Vec::new();
    assert(used.deep_view() =~= Seq::<Seq<char>>::empty());
    let base = remove_state_suffix(interface_name);
    let kname = to_kebab_case(base.as_str());
    let functions = render_methods(&impl_item.methods, &mut used)?;
    let defs = collect_type_definitions(ast)?;
    if functions.len() == 0 {
        assert(functions.deep_view().len() == 0);
        return Ok(String::new());
    }
    let names = type_closure(&defs, &used);
    let texts = texts_for(&defs, &names);
    let mut out = "interface ".to_string();
    out.append(kname.as_str());
    out.append(" {\n");
    out.append("    use standard.{address};\n\n");
    if texts.len() > 0 {
        let decls = join_strings(&texts, "\n\n");
        out.append(decls.as_str());
        out.append("\n\n");
    } else {
        proof {
            reveal_strlit("");
        }
    }
    let funcs = join_strings(&functions, "\n");
    out.append(funcs.as_str());
    out.append("\n}\n");
    assert(texts.deep_view().len() == texts@.len());
    assert(out@ =~= interface_text(kname@, texts.deep_view(), functions.deep_view()));
    Ok(out)
}

} // verus!
