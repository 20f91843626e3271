use vstd::prelude::*;
use crate::text::{chars_of, contains_seq, contains_str, push_char};

verus! {

/// Whether a character has the Unicode Uppercase property.
pub uninterp spec fn uppercase_prop(c: char) -> bool;

/// Whether a character has the Unicode Lowercase property.
pub uninterp spec fn lowercase_prop(c: char) -> bool;

/// The first character of the lowercase mapping of a character.
pub uninterp spec fn lower_first(c: char) -> char;

/// The full Unicode lowercase mapping of a string.
pub uninterp spec fn lower_of(s: Seq<char>) -> Seq<char>;

pub open spec fn is_ascii_upper(c: char) -> bool {
    'A' <= c && c <= 'Z'
}

pub open spec fn is_ascii_lower(c: char) -> bool {
    'a' <= c && c <= 'z'
}

/// Relies on `char::is_uppercase`: the Uppercase property, which holds of
/// `A`..`Z` and not of `a`..`z`, `-` or `_`.
#[verifier::external_body]
fn is_upper(c: char) -> (r: bool)
    ensures
        r == uppercase_prop(c),
        is_ascii_upper(c) ==> r,
        is_ascii_lower(c) || c == '-' || c == '_' ==> !r,
{
    c.is_uppercase()
}

/// Relies on `char::is_lowercase`: the Lowercase property, which holds of
/// `a`..`z` and not of `A`..`Z`.
#[verifier::external_body]
fn is_lower(c: char) -> (r: bool)
    ensures
        r == lowercase_prop(c),
        is_ascii_lower(c) ==> r,
        is_ascii_upper(c) ==> !r,
{
    c.is_lowercase()
}

/// Relies on `char::to_lowercase`, which yields at least one character: the
/// first of them; `A`..`Z` map to `a`..`z`.
#[verifier::external_body]
fn lower_char(c: char) -> (r: char)
    ensures
        r == lower_first(c),
        is_ascii_upper(c) ==> r as u32 == c as u32 + 32,
{
    c.to_lowercase().next().unwrap()
}

/// Relies on `str::to_lowercase`: the lowercase mapping of the whole string.
#[verifier::external_body]
fn lowercase(s: &str) -> (r: String)
    ensures
        r@ == lower_of(s@),
{
    s.to_lowercase()
}

pub open spec fn hyphens_for_underscores(s: Seq<char>) -> Seq<char> {
    s.map_values(|c: char| if c == '_' { '-' } else { c })
}

/// A word boundary falls before position `i`: the previous character is
/// lowercase, or the next one is.
pub open spec fn boundary_before(s: Seq<char>, i: int) -> bool {
    i > 0 && (lowercase_prop(s[i - 1]) || (i + 1 < s.len() && lowercase_prop(s[i + 1])))
}

/// What the character at position `i` becomes in the hyphenated form.
pub open spec fn kebab_piece(s: Seq<char>, i: int) -> Seq<char> {
    if uppercase_prop(s[i]) {
        if boundary_before(s, i) {
            seq!['-', lower_first(s[i])]
        } else {
            seq![lower_first(s[i])]
        }
    } else {
        seq![s[i]]
    }
}

pub open spec fn kebab_prefix(s: Seq<char>, n: int) -> Seq<char>
    decreases n,
{
    if n <= 0 {
        Seq::empty()
    } else {
        kebab_prefix(s, n - 1) + kebab_piece(s, n - 1)
    }
}

/// The normalized (hyphen-separated, lowercase) form of a raw name.
pub open spec fn kebab(s: Seq<char>) -> Seq<char> {
    if s.contains('_') {
        hyphens_for_underscores(s)
    } else {
        kebab_prefix(s, s.len() as int)
    }
}

/// Converts a raw name to its hyphen-separated lowercase form.
pub fn to_kebab_case(s: &str) -> (r: String)
    ensures
        r@ == kebab(s@),
{
    let cs = chars_of(s);
    let n = cs.len();
    let mut has_underscore = false;
    let mut i: usize = 0;
    while i < n
        invariant
            n == cs@.len(),
            i <= n,
            has_underscore == (exists|t: int| 0 <= t < i && #[trigger] cs@[t] == '_'),
        decreases n - i,
    {
        if cs[i] == '_' {
            has_underscore = true;
        }
        i = i + 1;
    }
    assert(has_underscore == cs@.contains('_'));
    let mut out = String::new();
    if has_underscore {
        let mut j: usize = 0;
        while j < n
            invariant
                n == cs@.len(),
                cs@ == s@,
                j <= n,
                out@ =~= hyphens_for_underscores(cs@).subrange(0, j as int),
            decreases n - j,
        {
            let c = cs[j];
            if c == '_' {
                push_char(&mut out, '-');
            } else {
                push_char(&mut out, c);
            }
            assert(hyphens_for_underscores(cs@).subrange(0, j + 1) =~= hyphens_for_underscores(
                cs@,
            ).subrange(0, j as int).push(hyphens_for_underscores(cs@)[j as int]));
            j = j + 1;
        }
        assert(hyphens_for_underscores(cs@).subrange(0, n as int) =~= hyphens_for_underscores(
            cs@,
        ));
        return out;
    }
    let mut j: usize = 0;
    while j < n
        invariant
            n == cs@.len(),
            cs@ == s@,
            j <= n,
            out@ == kebab_prefix(cs@, j as int),
        decreases n - j,
    {
        let c = cs[j];
        if is_upper(c) {
            if j > 0 && (is_lower(cs[j - 1]) || (j + 1 < n && is_lower(cs[j + 1]))) {
                push_char(&mut out, '-');
            }
            push_char(&mut out, lower_char(c));
        } else {
            push_char(&mut out, c);
        }
        assert(out@ =~= kebab_prefix(cs@, j as int) + kebab_piece(cs@, j as int));
        j = j + 1;
    }
    out
}

/// Which naming rule a rejected name breaks.
#[derive(Clone, Copy, Debug, PartialEq, Eq)]
pub enum NamingRule {
    /// The name holds a decimal digit.
    Digit,
    /// The name holds "stream", in any case.
    Stream,
}

/// A name rejected by the naming policy, with the category of the item
/// that carried it ("Struct", "Field", "Parameter", ...).
#[derive(Clone, Debug)]
pub struct NamingError {
    pub kind: String,
    pub name: String,
    pub rule: NamingRule,
}

/// The diagnostic text of a naming error.
pub open spec fn message_text(e: NamingError) -> Seq<char> {
    "Error: "@ + e.kind@ + " name '"@ + e.name@ + "' contains "@ + match e.rule {
        NamingRule::Digit => "numbers"@,
        NamingRule::Stream => "'stream'"@,
    } + ", which is not allowed"@
}

impl NamingError {
    /// The diagnostic text: the category, the name, and the rule broken.
    pub fn message(&self) -> (r: String)
        ensures
            r@ == message_text(*self),
    {
        let mut out = "Error: ".to_string();
        out.append(self.kind.as_str());
        out.append(" name '");
        out.append(self.name.as_str());
        out.append("' contains ");
        match self.rule {
            NamingRule::Digit => out.append("numbers"),
            NamingRule::Stream => out.append("'stream'"),
        }
        out.append(", which is not allowed");
        out
    }
}

pub open spec fn is_decimal_digit(c: char) -> bool {
    '0' <= c && c <= '9'
}

pub open spec fn has_digit(s: Seq<char>) -> bool {
    exists|i: int| 0 <= i < s.len() && is_decimal_digit(#[trigger] s[i])
}

pub open spec fn stream_word() -> Seq<char> {
    seq!['s', 't', 'r', 'e', 'a', 'm']
}

/// The lowercase form of the name holds "stream".
pub open spec fn has_stream(s: Seq<char>) -> bool {
    contains_seq(lower_of(s), stream_word())
}

/// The naming policy: no decimal digit and no "stream" in any case.
pub open spec fn name_ok(s: Seq<char>) -> bool {
    !has_digit(s) && !has_stream(s)
}

/// The rule reported for a name that breaks the policy; digits are checked first.
pub open spec fn rule_for(s: Seq<char>) -> NamingRule {
    if has_digit(s) {
        NamingRule::Digit
    } else {
        NamingRule::Stream
    }
}

/// `e` reports `name`, met as an item of category `kind`.
pub open spec fn reports(e: NamingError, kind: Seq<char>, name: Seq<char>) -> bool {
    e.kind@ == kind && e.name@ == name && e.rule == rule_for(name)
}

fn contains_digit(s: &str) -> (r: bool)
    ensures
        r == has_digit(s@),
{
    let cs = chars_of(s);
    let mut i: usize = 0;
    while i < cs.len()
        invariant
            cs@ == s@,
            i <= cs@.len(),
            forall|t: int| 0 <= t < i ==> !is_decimal_digit(#[trigger] cs@[t]),
        decreases cs@.len() - i,
    {
        if '0' <= cs[i] && cs[i] <= '9' {
            return true;
        }
        i = i + 1;
    }
    false
}

/// Checks a raw name against the naming policy; `kind` labels the error.
pub fn validate_name(name: &str, kind: &str) -> (r: Result<(), NamingError>)
    ensures
        r is Ok <==> name_ok(name@),
        r matches Err(e) ==> reports(e, kind@, name@),
{
    if contains_digit(name) {
        return Err(NamingError { kind: kind.to_string(), name: name.to_string(), rule: NamingRule::Digit });
    }
    let lower = lowercase(name);
    proof {
        reveal_strlit("stream");
    }
    assert("stream"@ =~= stream_word());
    if contains_str(lower.as_str(), "stream") {
        return Err(NamingError { kind: kind.to_string(), name: name.to_string(), rule: NamingRule::Stream });
    }
    Ok(())
}

pub open spec fn state_word() -> Seq<char> {
    seq!['S', 't', 'a', 't', 'e']
}

/// The name without a trailing "State", if it has one.
pub open spec fn strip_state(s: Seq<char>) -> Seq<char> {
    if s.len() >= 5 && s.subrange(s.len() - 5, s.len() as int) == state_word() {
        s.subrange(0, s.len() - 5)
    } else {
        s
    }
}

/// Removes a trailing "State" from a raw type name.
pub fn remove_state_suffix(name: &str) -> (r: String)
    ensures
        r@ == strip_state(name@),
{
    let n = name.unicode_len();
    if n >= 5 {
        let tail = name.substring_char(n - 5, n);
        proof {
            reveal_strlit("State");
        }
        assert("State"@ =~= state_word());
        if tail.to_string() == "State".to_string() {
            return name.substring_char(0, n - 5).to_string();
        }
    }
    name.to_string()
}

/// A raw name holding a decimal digit, or "stream" in its lowercase form,
/// breaks the naming policy, so validation rejects it; a digit is reported
/// first.
pub proof fn lemma_digit_or_stream_rejected(s: Seq<char>)
    requires
        has_digit(s) || has_stream(s),
    ensures
        !name_ok(s),
        has_digit(s) ==> rule_for(s) == NamingRule::Digit,
        !has_digit(s) ==> rule_for(s) == NamingRule::Stream,
{
}

/// Normalizing a name that is already in normal form (no underscore and
/// no uppercase character, as a hyphenated lowercase name) returns it
/// unchanged.
pub proof fn lemma_kebab_fixes_normal_form(s: Seq<char>)
    requires
        !s.contains('_'),
        forall|i: int| 0 <= i < s.len() ==> !uppercase_prop(#[trigger] s[i]),
    ensures
        kebab(s) == s,
{
    lemma_kebab_prefix_unchanged(s, s.len() as int);
    assert(s.subrange(0, s.len() as int) =~= s);
}

proof fn lemma_kebab_prefix_unchanged(s: Seq<char>, n: int)
    requires
        0 <= n <= s.len(),
        forall|i: int| 0 <= i < s.len() ==> !uppercase_prop(#[trigger] s[i]),
    ensures
        kebab_prefix(s, n) == s.subrange(0, n),
    decreases n,
{
    if n > 0 {
        lemma_kebab_prefix_unchanged(s, n - 1);
        assert(s.subrange(0, n) =~= s.subrange(0, n - 1) + seq![s[n - 1]]);
    } else {
        assert(s.subrange(0, 0) =~= Seq::<char>::empty());
    }
}

} // verus!
