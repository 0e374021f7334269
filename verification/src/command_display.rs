//! Showing a captured command as one shell line.

use vstd::prelude::*;

use crate::model::CommandSpec;
use crate::nix_string::{join, join_strings, shell_single_quote, spec_shell_single_quote};
use crate::text::chars_of;

verus! {

/// A character that needs no quoting in a shell word.
pub open spec fn is_shell_safe(c: char) -> bool {
    ('a' <= c && c <= 'z') || ('A' <= c && c <= 'Z') || ('0' <= c && c <= '9') || c == '-' || c
        == '_' || c == '.' || c == '/' || c == ':' || c == '@' || c == '=' || c == '+'
}

/// A value as a shell word: `''` when empty, as it is when every character
/// is safe, else single-quoted.
pub open spec fn spec_shell_escape(value: Seq<char>) -> Seq<char> {
    if value.len() == 0 {
        "''"@
    } else if forall|i: int| 0 <= i < value.len() ==> is_shell_safe(#[trigger] value[i]) {
        value
    } else {
        spec_shell_single_quote(value)
    }
}

/// A value as a shell word.
pub fn shell_escape(value: &str) -> (r: String)
    ensures
        r@ == spec_shell_escape(value@),
{
    let v = chars_of(value);
    if v.len() == 0 {
        return "''".to_string();
    }
    let mut i: usize = 0;
    while i < v.len()
        invariant
            v@ == value@,
            i <= v@.len(),
            forall|j: int| 0 <= j < i ==> is_shell_safe(#[trigger] v@[j]),
        decreases v@.len() - i,
    {
        let c = v[i];
        let safe = ('a' <= c && c <= 'z') || ('A' <= c && c <= 'Z') || ('0' <= c && c <= '9') || c
            == '-' || c == '_' || c == '.' || c == '/' || c == ':' || c == '@' || c == '=' || c
            == '+';
        if !safe {
            proof {
                assert(!is_shell_safe(value@[i as int]));
            }
            return shell_single_quote(value);
        }
        i = i + 1;
    }
    value.to_string()
}

/// The words of a command line: `cd <cwd> &&` when it has a working
/// directory, then `KEY=value` per environment entry, the program and the
/// arguments, each escaped.
pub open spec fn display_words(command: CommandSpec) -> Seq<Seq<char>> {
    let cd = match command.cwd {
        Some(cwd) => seq!["cd "@ + spec_shell_escape(cwd@) + " &&"@],
        None => Seq::empty(),
    };
    cd + command.env@.map_values(
        |e: crate::model::CommandEnv| spec_shell_escape(e.key@) + "="@ + spec_shell_escape(e.value@),
    ) + seq![spec_shell_escape(command.program@)] + command.args@.map_values(
        |a: String| spec_shell_escape(a@),
    )
}

/// A captured command as one shell line.
pub fn render_command_for_display(command: &CommandSpec) -> (r: String)
    ensures
        r@ == join(display_words(*command), " "@),
{
    let mut parts: Vec<String> = Vec::new();
    match &command.cwd {
        Some(cwd) => {
            let mut p = "cd ".to_string();
            p.append(shell_escape(cwd.as_str()).as_str());
            p.append(" &&");
            parts.push(p);
        },
        None => {},
    }
    let ghost cd = crate::text::strings_view(parts@);
    let ghost envs = command.env@.map_values(
        |e: crate::model::CommandEnv| spec_shell_escape(e.key@) + "="@ + spec_shell_escape(e.value@),
    );
    let mut i: usize = 0;
    while i < command.env.len()
        invariant
            i <= command.env@.len(),
            envs == command.env@.map_values(
                |e: crate::model::CommandEnv| spec_shell_escape(e.key@) + "="@ + spec_shell_escape(e.value@),
            ),
            crate::text::strings_view(parts@) == cd + envs.take(i as int),
        decreases command.env@.len() - i,
    {
        let mut p = shell_escape(command.env[i].key.as_str());
        p.append("=");
        p.append(shell_escape(command.env[i].value.as_str()).as_str());
        let ghost before = crate::text::strings_view(parts@);
        parts.push(p);
        proof {
            assert(crate::text::strings_view(parts@) =~= before.push(envs[i as int]));
            assert(cd + envs.take(i + 1) =~= (cd + envs.take(i as int)).push(envs[i as int]));
        }
        i = i + 1;
    }
    proof {
        assert(envs.take(i as int) =~= envs);
    }
    let ghost before_program = crate::text::strings_view(parts@);
    parts.push(shell_escape(command.program.as_str()));
    proof {
        assert(crate::text::strings_view(parts@) =~= before_program.push(spec_shell_escape(command.program@)));
    }
    let ghost head = crate::text::strings_view(parts@);
    let ghost args = command.args@.map_values(|a: String| spec_shell_escape(a@));
    let mut k: usize = 0;
    while k < command.args.len()
        invariant
            k <= command.args@.len(),
            args == command.args@.map_values(|a: String| spec_shell_escape(a@)),
            crate::text::strings_view(parts@) == head + args.take(k as int),
        decreases command.args@.len() - k,
    {
        let ghost before = crate::text::strings_view(parts@);
        parts.push(shell_escape(command.args[k].as_str()));
        proof {
            assert(crate::text::strings_view(parts@) =~= before.push(args[k as int]));
            assert(head + args.take(k + 1) =~= (head + args.take(k as int)).push(args[k as int]));
        }
        k = k + 1;
    }
    proof {
        assert(args.take(k as int) =~= args);
        assert(crate::text::strings_view(parts@) =~= display_words(*command));
    }
    join_strings(&parts, " ")
}

} // verus!
