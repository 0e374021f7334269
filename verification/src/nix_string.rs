//! Quoting values for POSIX shells and for Nix string literals.

use vstd::prelude::*;

use crate::text::{chars_of, push_char, strings_view};

verus! {

/// `s` with every `c` replaced by `with` (`str::replace` with a char pattern).
pub open spec fn replace_char(s: Seq<char>, c: char, with: Seq<char>) -> Seq<char>
    decreases s.len(),
{
    if s.len() == 0 {
        Seq::empty()
    } else {
        replace_char(s.drop_last(), c, with) + (if s.last() == c {
            with
        } else {
            seq![s.last()]
        })
    }
}

/// Replacing a character that does not occur leaves the text unchanged.
pub proof fn lemma_replace_char_absent(s: Seq<char>, c: char, with: Seq<char>)
    requires
        forall|i: int| 0 <= i < s.len() ==> s[i] != c,
    ensures
        replace_char(s, c, with) == s,
    decreases s.len(),
{
    if s.len() > 0 {
        lemma_replace_char_absent(s.drop_last(), c, with);
        assert(s.drop_last() + seq![s.last()] =~= s);
    }
}

/// `value` in single quotes for a POSIX shell: every `'` becomes `'"'"'`.
pub open spec fn spec_shell_single_quote(value: Seq<char>) -> Seq<char> {
    "'"@ + replace_char(value, '\'', "'\"'\"'"@) + "'"@
}

/// The parts joined with `sep` between consecutive parts.
pub open spec fn join(parts: Seq<Seq<char>>, sep: Seq<char>) -> Seq<char>
    decreases parts.len(),
{
    if parts.len() == 0 {
        Seq::empty()
    } else if parts.len() == 1 {
        parts[0]
    } else {
        join(parts.drop_last(), sep) + sep + parts.last()
    }
}

/// The single-quoted values separated by spaces: the elements of a shell
/// array literal.
pub open spec fn spec_shell_array_literal(values: Seq<Seq<char>>) -> Seq<char> {
    join(values.map_values(|v: Seq<char>| spec_shell_single_quote(v)), " "@)
}

/// How a character is written inside a Nix double-quoted string.
pub open spec fn nix_escape_char(c: char) -> Seq<char> {
    if c == '\\' {
        "\\\\"@
    } else if c == '"' {
        "\\\""@
    } else if c == '$' {
        "\\$"@
    } else if c == '\n' {
        "\\n"@
    } else if c == '\r' {
        "\\r"@
    } else if c == '\t' {
        "\\t"@
    } else {
        seq![c]
    }
}

/// `value` escaped for a Nix double-quoted string.
pub open spec fn spec_nix_escape(value: Seq<char>) -> Seq<char>
    decreases value.len(),
{
    if value.len() == 0 {
        Seq::empty()
    } else {
        spec_nix_escape(value.drop_last()) + nix_escape_char(value.last())
    }
}

/// A Nix string literal holding `value`.
pub open spec fn spec_nix_string(value: Seq<char>) -> Seq<char> {
    "\""@ + spec_nix_escape(value) + "\""@
}

/// A Nix list of string literals: `[ "a" "b" ]`, or `[ ]` when empty.
pub open spec fn spec_nix_string_list(values: Seq<Seq<char>>) -> Seq<char>
    decreases values.len(),
{
    if values.len() == 0 {
        "[ ]"@
    } else {
        let prev = spec_nix_string_list(values.drop_last());
        prev.take(prev.len() - 1) + spec_nix_string(values.last()) + " ]"@
    }
}

/// The strings joined with `sep` between consecutive ones (`[String]::join`).
pub fn join_strings(parts: &Vec<String>, sep: &str) -> (r: String)
    ensures
        r@ == join(strings_view(parts@), sep@),
{
    let ghost views = strings_view(parts@);
    let mut r = String::new();
    let mut i: usize = 0;
    while i < parts.len()
        invariant
            i <= parts@.len(),
            views == strings_view(parts@),
            r@ == join(views.take(i as int), sep@),
        decreases parts@.len() - i,
    {
        proof {
            assert(views.take(i + 1).drop_last() =~= views.take(i as int));
            assert(views.take(i + 1).last() == parts@[i as int]@);
        }
        if i > 0 {
            r.append(sep);
        }
        r.append(parts[i].as_str());
        proof {
            if i == 0 {
                assert(r@ =~= join(views.take(1), sep@));
            }
        }
        i = i + 1;
    }
    assert(views.take(i as int) =~= views);
    r
}

/// `value` in single quotes for a POSIX shell.
pub fn shell_single_quote(value: &str) -> (r: String)
    ensures
        r@ == spec_shell_single_quote(value@),
{
    let v = chars_of(value);
    let mut r = String::from_str("'");
    let ghost start = r@;
    let mut i: usize = 0;
    while i < v.len()
        invariant
            i <= v@.len(),
            v@ == value@,
            start == "'"@,
            r@ == start + replace_char(v@.take(i as int), '\'', "'\"'\"'"@),
        decreases v@.len() - i,
    {
        let c = v[i];
        if c == '\'' {
            r.append("'\"'\"'");
        } else {
            push_char(&mut r, c);
        }
        proof {
            assert(v@.take(i + 1).drop_last() =~= v@.take(i as int));
            assert(v@.take(i + 1).last() == c);
            if c != '\'' {
                assert(r@ =~= start + replace_char(v@.take(i + 1), '\'', "'\"'\"'"@));
            } else {
                assert(r@ =~= start + replace_char(v@.take(i + 1), '\'', "'\"'\"'"@));
            }
        }
        i = i + 1;
    }
    r.append("'");
    assert(v@.take(i as int) =~= value@);
    r
}

/// The values single-quoted and separated by spaces (the elements of a
/// shell array literal); empty for no values.
pub fn shell_array_literal(values: &Vec<String>) -> (r: String)
    ensures
        r@ == spec_shell_array_literal(strings_view(values@)),
{
    let ghost quoted = strings_view(values@).map_values(|v: Seq<char>| spec_shell_single_quote(v));
    let mut r = String::new();
    let mut i: usize = 0;
    while i < values.len()
        invariant
            i <= values@.len(),
            quoted == strings_view(values@).map_values(|v: Seq<char>| spec_shell_single_quote(v)),
            r@ == join(quoted.take(i as int), " "@),
        decreases values@.len() - i,
    {
        proof {
            assert(quoted.take(i + 1).drop_last() =~= quoted.take(i as int));
            assert(quoted.take(i + 1).last() == spec_shell_single_quote(values@[i as int]@));
        }
        if i > 0 {
            r.append(" ");
        }
        let q = shell_single_quote(values[i].as_str());
        r.append(q.as_str());
        proof {
            if i == 0 {
                assert(r@ =~= join(quoted.take(1), " "@));
            }
        }
        i = i + 1;
    }
    assert(quoted.take(i as int) =~= quoted);
    r
}

/// `value` escaped for a Nix double-quoted string: backslash, double quote,
/// `$`, newline, carriage return and tab are written with a backslash.
pub fn nix_escape(value: &str) -> (r: String)
    ensures
        r@ == spec_nix_escape(value@),
{
    let v = chars_of(value);
    let mut r = String::new();
    let mut i: usize = 0;
    while i < v.len()
        invariant
            i <= v@.len(),
            v@ == value@,
            r@ == spec_nix_escape(v@.take(i as int)),
        decreases v@.len() - i,
    {
        let c = v[i];
        if c == '\\' {
            r.append("\\\\");
        } else if c == '"' {
            r.append("\\\"");
        } else if c == '$' {
            r.append("\\$");
        } else if c == '\n' {
            r.append("\\n");
        } else if c == '\r' {
            r.append("\\r");
        } else if c == '\t' {
            r.append("\\t");
        } else {
            push_char(&mut r, c);
        }
        proof {
            assert(v@.take(i + 1).drop_last() =~= v@.take(i as int));
            assert(v@.take(i + 1).last() == c);
            assert(r@ =~= spec_nix_escape(v@.take(i + 1)));
        }
        i = i + 1;
    }
    assert(v@.take(i as int) =~= value@);
    r
}

/// A Nix string literal holding `value`.
pub fn nix_string(value: &str) -> (r: String)
    ensures
        r@ == spec_nix_string(value@),
{
    let mut r = String::from_str("\"");
    let e = nix_escape(value);
    r.append(e.as_str());
    r.append("\"");
    r
}

/// A Nix boolean literal.
pub fn nix_bool(value: bool) -> (r: String)
    ensures
        r@ == (if value { "true"@ } else { "false"@ }),
{
    if value {
        String::from_str("true")
    } else {
        String::from_str("false")
    }
}

/// A Nix string literal for `Some`, `null` for `None`.
pub fn nix_optional_string(value: Option<&str>) -> (r: String)
    ensures
        r@ == (match value {
            Some(v) => spec_nix_string(v@),
            None => "null"@,
        }),
{
    match value {
        Some(v) => nix_string(v),
        None => String::from_str("null"),
    }
}

/// A Nix list of string literals.
pub fn nix_string_list(values: &Vec<String>) -> (r: String)
    ensures
        r@ == spec_nix_string_list(strings_view(values@)),
{
    let mut r = String::from_str("[");
    let mut i: usize = 0;
    proof {
        reveal_strlit("[ ]");
        reveal_strlit("[");
        reveal_strlit(" ]");
        assert(strings_view(values@).take(0) =~= Seq::<Seq<char>>::empty());
    }
    while i < values.len()
        invariant
            i <= values@.len(),
            r@ + " ]"@ == spec_nix_string_list(strings_view(values@).take(i as int)),
        decreases values@.len() - i,
    {
        let ghost before = r@;
        r.append(" ");
        let q = nix_string(values[i].as_str());
        r.append(q.as_str());
        proof {
            reveal_strlit(" ]");
            reveal_strlit(" ");
            let vs = strings_view(values@);
            assert(vs.take(i + 1).drop_last() =~= vs.take(i as int));
            assert(vs.take(i + 1).last() == values@[i as int]@);
            let prev = spec_nix_string_list(vs.take(i as int));
            assert(prev.take(prev.len() - 1) =~= before + " "@);
            assert(r@ + " ]"@ =~= spec_nix_string_list(vs.take(i + 1)));
        }
        i = i + 1;
    }
    r.append(" ]");
    assert(strings_view(values@).take(i as int) =~= strings_view(values@));
    r
}

} // verus!
