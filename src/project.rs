use vstd::prelude::*;
use crate::collect::{err_agrees, NameFault};
use crate::interface::{generate_interface_wit_content, ident_of, interface_of};
use crate::mapper::same;
use crate::model::{Attr, ImplBlock, Item, SourceFile};
use crate::naming::{kebab, name_ok, remove_state_suffix, strip_state, to_kebab_case, validate_name, NamingError};
use crate::text::{chars_of, find_from, find_in, find_seq, slice_chars, string_of_chars};

verus! {

/// The quoted value that follows the first `wit_world` in an attribute's
/// debug rendering: the text between the first `lit: "` after it and the
/// next quote.
pub open spec fn world_in_debug(d: Seq<char>) -> Option<Seq<char>> {
    match find_seq(d, "wit_world"@) {
        None => None,
        Some(p) => match find_from(d, "lit: \""@, p) {
            None => None,
            Some(q) => {
                let start = q + "lit: \""@.len();
                match find_from(d, "\""@, start) {
                    None => None,
                    Some(e) => Some(d.subrange(start, e)),
                }
            },
        },
    }
}

/// The world named by the first `hyperprocess` attribute that names one.
pub open spec fn world_of_attrs(attrs: Seq<Attr>) -> Option<Seq<char>>
    decreases attrs.len(),
{
    if attrs.len() == 0 {
        None
    } else if ident_of(attrs[0]) == Some("hyperprocess"@) && world_in_debug(attrs[0].debug@) is Some {
        world_in_debug(attrs[0].debug@)
    } else {
        world_of_attrs(attrs.drop_first())
    }
}

fn world_from_debug(d: &String) -> (r: Option<String>)
    ensures
        r matches Some(w) ==> world_in_debug(d@) == Some(w@),
        r is None ==> world_in_debug(d@) is None,
{
    let cs = chars_of(d.as_str());
    let key = chars_of("wit_world");
    let lit = chars_of("lit: \"");
    let quote = chars_of("\"");
    let p = find_in(&cs, &key, 0)?;
    proof {
        crate::text::lemma_find_from_bounds(cs@, key@, 0);
    }
    let q = find_in(&cs, &lit, p)?;
    proof {
        crate::text::lemma_find_from_bounds(cs@, lit@, p as int);
    }
    assert(find_from(cs@, lit@, p as int) == Some(q as int));
    let n = cs.len();
    assert(q + lit@.len() <= n);
    let start = q + lit.len();
    let e = find_in(&cs, &quote, start)?;
    proof {
        crate::text::lemma_find_from_bounds(cs@, quote@, start as int);
    }
    Some(string_of_chars(&slice_chars(&cs, start, e)))
}

/// The world named by the first `hyperprocess` attribute that names one.
pub fn extract_wit_world(attrs: &Vec<Attr>) -> (r: Option<String>)
    ensures
        r matches Some(w) ==> world_of_attrs(attrs@) == Some(w@),
        r is None ==> world_of_attrs(attrs@) is None,
{
    let mut i: usize = 0;
    assert(attrs@.subrange(0, attrs@.len() as int) =~= attrs@);
    while i < attrs.len()
        invariant
            i <= attrs@.len(),
            world_of_attrs(attrs@) == world_of_attrs(attrs@.subrange(i as int, attrs@.len() as int)),
        decreases attrs@.len() - i,
    {
        let ghost rest = attrs@.subrange(i as int, attrs@.len() as int);
        assert(rest.drop_first() =~= attrs@.subrange(i + 1, attrs@.len() as int));
        assert(rest[0] == attrs@[i as int]);
        let a = &attrs[i];
        let marked = match &a.ident {
            Some(id) => same(id, "hyperprocess"),
            None => false,
        };
        if marked {
            let w = world_from_debug(&a.debug);
            if w.is_some() {
                return w;
            }
        }
        i = i + 1;
    }
    None
}

/// The first attribute whose path is `hyperprocess`.
pub open spec fn first_marked(attrs: Seq<Attr>) -> Option<Attr>
    decreases attrs.len(),
{
    if attrs.len() == 0 {
        None
    } else if ident_of(attrs[0]) == Some("hyperprocess"@) {
        Some(attrs[0])
    } else {
        first_marked(attrs.drop_first())
    }
}

/// What scanning a module has gathered so far: the world, the interface's
/// raw name, its normalized name, and the interface files (name, content).
pub type PlanState = (
    Option<Seq<char>>,
    Option<Seq<char>>,
    Option<Seq<char>>,
    Seq<(Seq<char>, Seq<char>)>,
);

/// One item of the scan. An implementation block counts when its first
/// `hyperprocess` attribute names a world; its type then names the
/// interface, and a non-empty interface text gives a file and the name to
/// export; an empty one leaves nothing to export.
pub open spec fn project_step(st: PlanState, item: Item, file: SourceFile) -> Result<
    PlanState,
    NameFault,
> {
    match item {
        Item::Impl(b) => match first_marked(b.attrs@) {
            None => Ok(st),
            Some(a) => match world_in_debug(a.debug@) {
                None => Ok(st),
                Some(w) => match b.self_ty.path_ident_spec() {
                    None => Ok((Some(w), None, st.2, st.3)),
                    Some(name) => if !name_ok(name) {
                        Err(("Interface"@, name))
                    } else {
                        let k = kebab(strip_state(name));
                        match interface_of(b, name, file) {
                            Err(e) => Err(e),
                            Ok(c) => if c.len() == 0 {
                                Ok((Some(w), Some(name), None, st.3))
                            } else {
                                Ok((Some(w), Some(name), Some(k), st.3.push((k + ".wit"@, c))))
                            },
                        }
                    },
                },
            },
        },
        _ => Ok(st),
    }
}

pub open spec fn project_scan(items: Seq<Item>, file: SourceFile) -> Result<PlanState, NameFault>
    decreases items.len(),
{
    if items.len() == 0 {
        Ok((None, None, None, Seq::empty()))
    } else {
        match project_scan(items.drop_last(), file) {
            Err(e) => Err(e),
            Ok(st) => project_step(st, items.last(), file),
        }
    }
}

/// The export statement of a scan that found a world and an interface.
pub open spec fn export_of(st: PlanState) -> Option<Seq<char>> {
    if st.0 is Some && st.1 is Some && st.2 is Some {
        Some("    export "@ + st.2->0 + ";"@)
    } else {
        None
    }
}

/// An interface file to write: its name and content.
#[derive(Clone, Debug)]
pub struct InterfaceFile {
    pub file_name: String,
    pub content: String,
}

/// What one project yields: the interface files to write, in order, and
/// its export statement for the world manifest.
#[derive(Clone, Debug)]
pub struct ProjectPlan {
    pub files: Vec<InterfaceFile>,
    pub export: Option<String>,
}

pub open spec fn files_view(v: Seq<InterfaceFile>) -> Seq<(Seq<char>, Seq<char>)> {
    v.map_values(|f: InterfaceFile| (f.file_name@, f.content@))
}

pub open spec fn opt_view(o: Option<String>) -> Option<Seq<char>> {
    match o {
        Some(s) => Some(s@),
        None => None,
    }
}

proof fn lemma_project_scan_err(s: Seq<Item>, file: SourceFile, k: int)
    requires
        0 <= k <= s.len(),
        project_scan(s.subrange(0, k), file) is Err,
    ensures
        project_scan(s, file) == project_scan(s.subrange(0, k), file),
    decreases s.len() - k,
{
    if k < s.len() {
        assert(s.subrange(0, k + 1).drop_last() =~= s.subrange(0, k));
        lemma_project_scan_err(s, file, k + 1);
    } else {
        assert(s.subrange(0, k) =~= s);
    }
}

fn first_marked_attr(attrs: &Vec<Attr>) -> (r: Option<&Attr>)
    ensures
        r matches Some(a) ==> first_marked(attrs@) == Some(*a),
        r is None ==> first_marked(attrs@) is None,
{
    let mut i: usize = 0;
    assert(attrs@.subrange(0, attrs@.len() as int) =~= attrs@);
    while i < attrs.len()
        invariant
            i <= attrs@.len(),
            first_marked(attrs@) == first_marked(attrs@.subrange(i as int, attrs@.len() as int)),
        decreases attrs@.len() - i,
    {
        let ghost rest = attrs@.subrange(i as int, attrs@.len() as int);
        assert(rest.drop_first() =~= attrs@.subrange(i + 1, attrs@.len() as int));
        assert(rest[0] == attrs@[i as int]);
        let a = &attrs[i];
        match &a.ident {
            Some(id) => {
                if same(id, "hyperprocess") {
                    return Some(a);
                }
            },
            None => {},
        }
        i = i + 1;
    }
    None
}

/// Scans a parsed module: renders the interface of each implementation
/// block marked with a world, and gives the export statement.
pub fn plan_project(ast: &SourceFile) -> (r: Result<ProjectPlan, NamingError>)
    ensures
        match r {
            Ok(p) => project_scan(ast.items@, *ast) matches Ok(st) && files_view(p.files@) == st.3
                && opt_view(p.export) == export_of(st),
            Err(e) => project_scan(ast.items@, *ast) matches Err(f) && err_agrees(e, f),
        },
{
    let items = &ast.items;
    let mut world: Option<String> = None;
    let mut iface: Option<String> = None;
    let mut kname: Option<String> = None;
    let mut files: Vec<InterfaceFile> = Vec::new();
    assert(files_view(files@) =~= Seq::<(Seq<char>, Seq<char>)>::empty());
    let mut i: usize = 0;
    while i < items.len()
        invariant
            items == &ast.items,
            i <= items@.len(),
            project_scan(items@.subrange(0, i as int), *ast) == Ok::<PlanState, NameFault>(
                (opt_view(world), opt_view(iface), opt_view(kname), files_view(files@)),
            ),
        decreases items@.len() - i,
    {
        let ghost t = items@.subrange(0, i + 1);
        assert(t.drop_last() =~= items@.subrange(0, i as int));
        match &items[i] {
            Item::Impl(b) => {
                match first_marked_attr(&b.attrs) {
                    None => {},
                    Some(a) => {
                        match world_from_debug(&a.debug) {
                            None => {},
                            Some(w) => {
                                world = Some(w);
                                match b.self_ty.path_ident() {
                                    None => {
                                        iface = None;
                                    },
                                    Some(name) => {
                                        if let Err(e) = validate_name(name.as_str(), "Interface") {
                                            proof {
                                                lemma_project_scan_err(items@, *ast, i + 1);
                                            }
                                            return Err(e);
                                        }
                                        let base = remove_state_suffix(name.as_str());
                                        let k = to_kebab_case(base.as_str());
                                        let content = match generate_interface_wit_content(
                                            b,
                                            name.as_str(),
                                            ast,
                                        ) {
                                            Ok(c) => c,
                                            Err(e) => {
                                                proof {
                                                    lemma_project_scan_err(items@, *ast, i + 1);
                                                }
                                                return Err(e);
                                            },
                                        };
                                        iface = Some(name);
                                        if content.unicode_len() > 0 {
                                            let mut file_name = k.clone();
                                            file_name.append(".wit");
                                            let ghost before = files_view(files@);
                                            let ghost fv = (file_name@, content@);
                                            files.push(InterfaceFile { file_name, content });
                                            assert(files_view(files@) =~= before.push(fv));
                                            kname = Some(k);
                                        } else {
                                            kname = None;
                                        }
                                    },
                                }
                            },
                        }
                    },
                }
            },
            _ => {},
        }
        i = i + 1;
    }
    assert(items@.subrange(0, items@.len() as int) =~= items@);
    let export = match (&world, &iface, &kname) {
        (Some(_), Some(_), Some(k)) => {
            let mut e = "    export ".to_string();
            e.append(k.as_str());
            e.append(";");
            Some(e)
        },
        _ => None,
    };
    Ok(ProjectPlan { files, export })
}

/// The package marker that a build manifest declares for a component project.
pub open spec fn component_package() -> Seq<char> {
    "hyperware:process"@
}

/// Whether a manifest's declared component package marks a project whose
/// interfaces are generated.
pub fn is_process_package(package: &str) -> (r: bool)
    ensures
        r == (package@ == component_package()),
{
    package.to_string() == "hyperware:process".to_string()
}

} // verus!
