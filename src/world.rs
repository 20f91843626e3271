use vstd::prelude::*;
use crate::mapper::{join, join_strings};
use crate::project::opt_view;
use crate::text::{chars_of, find_from, find_in, lemma_find_from_bounds, slice_chars, string_of_chars};

verus! {

/// Whether a character has the Unicode White_Space property.
pub uninterp spec fn whitespace_prop(c: char) -> bool;

/// Relies on `char::is_whitespace`: the White_Space property, which holds of
/// space, tab, line feed and carriage return.
#[verifier::external_body]
fn is_space(c: char) -> (r: bool)
    ensures
        r == whitespace_prop(c),
        c == ' ' || c == '\t' || c == '\n' || c == '\r' ==> r,
{
    c.is_whitespace()
}

pub open spec fn trim_start(s: Seq<char>) -> Seq<char>
    decreases s.len(),
{
    if s.len() > 0 && whitespace_prop(s[0]) {
        trim_start(s.drop_first())
    } else {
        s
    }
}

pub open spec fn trim_end(s: Seq<char>) -> Seq<char>
    decreases s.len(),
{
    if s.len() > 0 && whitespace_prop(s.last()) {
        trim_end(s.drop_last())
    } else {
        s
    }
}

pub open spec fn trim(s: Seq<char>) -> Seq<char> {
    trim_end(trim_start(s))
}

/// The leading run of non-whitespace characters.
pub open spec fn token(s: Seq<char>) -> Seq<char>
    decreases s.len(),
{
    if s.len() == 0 || whitespace_prop(s[0]) {
        Seq::empty()
    } else {
        seq![s[0]] + token(s.drop_first())
    }
}

/// The text without its trailing open braces.
pub open spec fn strip_braces(s: Seq<char>) -> Seq<char>
    decreases s.len(),
{
    if s.len() > 0 && s.last() == '{' {
        strip_braces(s.drop_last())
    } else {
        s
    }
}

pub open spec fn starts_world(t: Seq<char>) -> bool {
    t.len() >= 6 && t.subrange(0, 6) == "world "@
}

/// The first line, from position `start` on, whose trimmed form starts
/// with `world `; that trimmed form.
pub open spec fn world_line_from(s: Seq<char>, start: int) -> Option<Seq<char>>
    decreases s.len() + 1 - start,
{
    if start < 0 || start > s.len() {
        None
    } else {
        let e = match find_from(s, seq!['\n'], start) {
            Some(e) => e,
            None => s.len() as int,
        };
        proof {
            lemma_find_from_bounds(s, seq!['\n'], start);
        }
        let t = trim(s.subrange(start, e));
        if starts_world(t) {
            Some(t)
        } else if e < s.len() {
            world_line_from(s, e + 1)
        } else {
            None
        }
    }
}

/// The world name a manifest declares: the word after `world` on its first
/// world line, without trailing open braces.
pub open spec fn world_name_in(content: Seq<char>) -> Option<Seq<char>> {
    match world_line_from(content, 0) {
        None => None,
        Some(t) => {
            let tok = token(trim_start(t.subrange(6, t.len() as int)));
            if tok.len() > 0 {
                Some(strip_braces(tok))
            } else {
                None
            }
        },
    }
}

/// First index at or after `a` (up to `b`) that is not whitespace.
fn skip_ws(cs: &Vec<char>, a: usize, b: usize) -> (r: usize)
    requires
        a <= b <= cs@.len(),
    ensures
        a <= r <= b,
        cs@.subrange(r as int, b as int) == trim_start(cs@.subrange(a as int, b as int)),
{
    let mut i = a;
    while i < b && is_space(cs[i])
        invariant
            a <= i <= b,
            b <= cs@.len(),
            trim_start(cs@.subrange(i as int, b as int)) == trim_start(cs@.subrange(a as int, b as int)),
        decreases b - i,
    {
        assert(cs@.subrange(i as int, b as int).drop_first() =~= cs@.subrange(i + 1, b as int));
        i = i + 1;
    }
    i
}

/// Last end index down to `a` that follows a non-whitespace character.
fn back_ws(cs: &Vec<char>, a: usize, b: usize) -> (r: usize)
    requires
        a <= b <= cs@.len(),
    ensures
        a <= r <= b,
        cs@.subrange(a as int, r as int) == trim_end(cs@.subrange(a as int, b as int)),
{
    let mut j = b;
    while j > a && is_space(cs[j - 1])
        invariant
            a <= j <= b,
            b <= cs@.len(),
            trim_end(cs@.subrange(a as int, j as int)) == trim_end(cs@.subrange(a as int, b as int)),
        decreases j - a,
    {
        assert(cs@.subrange(a as int, j as int).drop_last() =~= cs@.subrange(a as int, j - 1));
        j = j - 1;
    }
    j
}

fn token_end(cs: &Vec<char>, a: usize, b: usize) -> (r: usize)
    requires
        a <= b <= cs@.len(),
    ensures
        a <= r <= b,
        cs@.subrange(a as int, r as int) == token(cs@.subrange(a as int, b as int)),
{
    let mut j = a;
    while j < b && !is_space(cs[j])
        invariant
            a <= j <= b,
            b <= cs@.len(),
            cs@.subrange(a as int, j as int) + token(cs@.subrange(j as int, b as int)) == token(
                cs@.subrange(a as int, b as int),
            ),
        decreases b - j,
    {
        let ghost rest = cs@.subrange(j as int, b as int);
        assert(rest.drop_first() =~= cs@.subrange(j + 1, b as int));
        assert(cs@.subrange(a as int, j + 1) =~= cs@.subrange(a as int, j as int) + seq![rest[0]]);
        j = j + 1;
    }
    assert(cs@.subrange(a as int, j as int) + token(cs@.subrange(j as int, b as int)) =~= cs@.subrange(
        a as int,
        j as int,
    ));
    j
}

fn brace_end(cs: &Vec<char>, a: usize, b: usize) -> (r: usize)
    requires
        a <= b <= cs@.len(),
    ensures
        a <= r <= b,
        cs@.subrange(a as int, r as int) == strip_braces(cs@.subrange(a as int, b as int)),
{
    let mut j = b;
    while j > a && cs[j - 1] == '{'
        invariant
            a <= j <= b,
            b <= cs@.len(),
            strip_braces(cs@.subrange(a as int, j as int)) == strip_braces(cs@.subrange(a as int, b as int)),
        decreases j - a,
    {
        assert(cs@.subrange(a as int, j as int).drop_last() =~= cs@.subrange(a as int, j - 1));
        j = j - 1;
    }
    j
}

/// The world name that a manifest declares, if it has a world line.
pub fn world_name_of(content: &str) -> (r: Option<String>)
    ensures
        opt_view(r) == world_name_in(content@),
{
    let cs = chars_of(content);
    let n = cs.len();
    let nl: Vec<char> = vec!['\n'];
    let prefix = chars_of("world ");
    proof {
        reveal_strlit("world ");
    }
    let mut start: usize = 0;
    while start <= n
        invariant
            n == cs@.len(),
            cs@ == content@,
            nl@ == seq!['\n'],
            prefix@ == "world "@,
            prefix@.len() == 6,
            world_line_from(cs@, 0) == world_line_from(cs@, start as int),
        decreases n + 1 - start,
    {
        proof {
            lemma_find_from_bounds(cs@, nl@, start as int);
        }
        let e = match find_in(&cs, &nl, start) {
            Some(e) => e,
            None => n,
        };
        let a = skip_ws(&cs, start, e);
        let b = back_ws(&cs, a, e);
        let ghost t = cs@.subrange(a as int, b as int);
        assert(t == trim(cs@.subrange(start as int, e as int)));
        let mut is_world = b - a >= 6;
        if is_world {
            let head = slice_chars(&cs, a, a + 6);
            assert(head@ == t.subrange(0, 6));
            is_world = string_of_chars(&head) == string_of_chars(&prefix);
        }
        if is_world {
            let c = skip_ws(&cs, a + 6, b);
            assert(cs@.subrange(a + 6, b as int) =~= t.subrange(6, t.len() as int));
            let d = token_end(&cs, c, b);
            if d == c {
                return None;
            }
            let f = brace_end(&cs, c, d);
            let name = slice_chars(&cs, c, f);
            return Some(string_of_chars(&name));
        }
        if e == n {
            return None;
        }
        start = e + 1;
    }
    None
}

/// The manifest of a world: one export statement per line, then the
/// standard include line.
pub open spec fn world_text(name: Seq<char>, exports: Seq<Seq<char>>) -> Seq<char> {
    "world "@ + name + " {\n"@ + join(exports, "\n"@) + "\n    include process-v1;\n}"@
}

/// The name of the manifest made when no manifest exists.
pub open spec fn default_world_spec() -> Seq<char> {
    "async-app-template-dot-os-v0"@
}

/// The name of the manifest made when no manifest exists.
pub fn default_world_name() -> (r: String)
    ensures
        r@ == default_world_spec(),
{
    "async-app-template-dot-os-v0".to_string()
}

/// Renders a world manifest listing the export statements in order.
pub fn render_world(name: &str, exports: &Vec<String>) -> (r: String)
    ensures
        r@ == world_text(name@, exports.deep_view()),
{
    let mut out = "world ".to_string();
    out.append(name);
    out.append(" {\n");
    let body = join_strings(exports, "\n");
    out.append(body.as_str());
    out.append("\n    include process-v1;\n}");
    out
}

/// What the manifests become: for each existing file its new content when
/// it declares a world, and a default manifest to create, if any.
#[derive(Clone, Debug)]
pub struct WorldUpdate {
    pub rewritten: Vec<Option<String>>,
    pub created: Option<String>,
}

/// The new content of an existing manifest: its world with the current
/// export statements; nothing when it declares no world.
pub open spec fn rewrite_of(content: Seq<char>, exports: Seq<Seq<char>>) -> Option<Seq<char>> {
    match world_name_in(content) {
        Some(n) => Some(world_text(n, exports)),
        None => None,
    }
}

/// The default manifest, made only when no existing file declares a world
/// and some project exports an interface.
pub open spec fn created_of(manifests: Seq<Seq<char>>, exports: Seq<Seq<char>>) -> Option<Seq<char>> {
    if (forall|i: int| 0 <= i < manifests.len() ==> world_name_in(#[trigger] manifests[i]) is None)
        && exports.len() > 0 {
        Some(world_text(default_world_spec(), exports))
    } else {
        None
    }
}

/// Rewrites every manifest that declares a world with the export
/// statements, or makes a default manifest when none does.
pub fn update_worlds(manifests: &Vec<String>, exports: &Vec<String>) -> (r: WorldUpdate)
    ensures
        r.rewritten@.len() == manifests@.len(),
        forall|i: int|
            0 <= i < manifests@.len() ==> opt_view(#[trigger] r.rewritten@[i]) == rewrite_of(
                manifests@[i]@,
                exports.deep_view(),
            ),
        opt_view(r.created) == created_of(manifests.deep_view(), exports.deep_view()),
{
    let mut rewritten: Vec<Option<String>> = Vec::new();
    let mut found = false;
    let mut i: usize = 0;
    while i < manifests.len()
        invariant
            i <= manifests@.len(),
            rewritten@.len() == i,
            forall|t: int|
                0 <= t < i ==> opt_view(#[trigger] rewritten@[t]) == rewrite_of(
                    manifests@[t]@,
                    exports.deep_view(),
                ),
            found == exists|t: int| 0 <= t < i && world_name_in(#[trigger] manifests@[t]@) is Some,
        decreases manifests@.len() - i,
    {
        match world_name_of(manifests[i].as_str()) {
            Some(n) => {
                rewritten.push(Some(render_world(n.as_str(), exports)));
                found = true;
            },
            None => {
                rewritten.push(None);
            },
        }
        i = i + 1;
    }
    let created = if !found && exports.len() > 0 {
        let name = default_world_name();
        Some(render_world(name.as_str(), exports))
    } else {
        None
    };
    proof {
        let mv = manifests.deep_view();
        if found {
            let t = choose|t: int| 0 <= t < manifests@.len() && world_name_in(#[trigger] manifests@[t]@) is Some;
            assert(mv[t] == manifests@[t]@);
        } else {
            assert forall|t: int| 0 <= t < mv.len() implies world_name_in(#[trigger] mv[t]) is None by {
                assert(mv[t] == manifests@[t]@);
            }
        }
    }
    WorldUpdate { rewritten, created }
}

} // verus!
