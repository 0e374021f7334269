//! The shell script that replays a package's captured commands.

use vstd::prelude::*;

use crate::model::{CommandEnv, Unit};
use crate::nix_string::{
    shell_array_literal, shell_single_quote, spec_shell_array_literal, spec_shell_single_quote,
};
use crate::text::{
    decimal, decimal_string, lemma_contains_append, lemma_contains_trans, occurs_at, seq_contains, str_equal,
    strings_view,
};

verus! {

/// A unit that compiles a build script.
pub open spec fn spec_is_build_script_compile(u: Unit) -> bool {
    u.target_kind@ == "custom-build"@ && u.compile_mode@ == "Build"@
}

/// Whether the unit compiles a build script.
pub fn is_build_script_compile(unit: &Unit) -> (r: bool)
    ensures
        r == spec_is_build_script_compile(*unit),
{
    str_equal(unit.target_kind.as_str(), "custom-build") && str_equal(
        unit.compile_mode.as_str(),
        "Build",
    )
}

/// `KEY=value` for each environment entry.
pub open spec fn env_pairs(env: Seq<CommandEnv>) -> Seq<Seq<char>> {
    env.map_values(|e: CommandEnv| e.key@ + "="@ + e.value@)
}

/// The text of an optional string, empty for `None`.
pub open spec fn or_empty(o: Option<String>) -> Seq<char> {
    match o {
        Some(s) => s@,
        None => Seq::empty(),
    }
}

/// The script block that replays unit number `index`.
pub open spec fn command_block(index: nat, u: Unit) -> Seq<char> {
    let n = decimal(index);
    let args_var = "cmd_args_"@ + n;
    let env_var = "cmd_env_"@ + n;
    "{\n"@ + "  declare -a "@ + args_var + "=("@ + spec_shell_array_literal(
        strings_view(u.command.args@),
    ) + ")\n"@ + "  declare -a "@ + env_var + "=("@ + spec_shell_array_literal(
        env_pairs(u.command.env@),
    ) + ")\n"@ + "  run_cargo_cmd "@ + (if spec_is_build_script_compile(u) {
        "1"@
    } else {
        "0"@
    }) + " "@ + spec_shell_single_quote(or_empty(u.build_script_binary)) + " "@
        + spec_shell_single_quote(or_empty(u.command.cwd)) + " "@ + spec_shell_single_quote(
        u.command.program@,
    ) + " "@ + args_var + " "@ + env_var + "\n"@ + "  unset "@ + args_var + " "@ + env_var
        + "\n"@ + "}\n"@
}

/// The blocks of all units, in order.
pub open spec fn spec_render_command_script(units: Seq<Unit>) -> Seq<char>
    decreases units.len(),
{
    if units.len() == 0 {
        Seq::empty()
    } else {
        spec_render_command_script(units.drop_last()) + command_block(
            (units.len() - 1) as nat,
            units.last(),
        )
    }
}

/// The `run_cargo_cmd` call that replays unit number `index`: the
/// build-script flag, then the single-quoted build-script binary, captured
/// working directory and program (each empty when absent), then the names of
/// the unit's argument and environment arrays.
pub open spec fn replay_call(index: nat, u: Unit) -> Seq<char> {
    "  run_cargo_cmd "@ + (if u.target_kind@ == "custom-build"@ && u.compile_mode@ == "Build"@ {
        "1"@
    } else {
        "0"@
    }) + " "@ + spec_shell_single_quote(
        match u.build_script_binary {
            Some(b) => b@,
            None => Seq::empty(),
        },
    ) + " "@ + spec_shell_single_quote(
        match u.command.cwd {
            Some(c) => c@,
            None => Seq::empty(),
        },
    ) + " "@ + spec_shell_single_quote(u.command.program@) + " "@ + ("cmd_args_"@ + decimal(
        index,
    )) + " "@ + ("cmd_env_"@ + decimal(index)) + "\n"@
}

/// The block of one unit holds its `run_cargo_cmd` call.
proof fn lemma_block_has_replay_call(index: nat, u: Unit)
    ensures
        seq_contains(command_block(index, u), replay_call(index, u)),
{
    let n = decimal(index);
    let args_var = "cmd_args_"@ + n;
    let env_var = "cmd_env_"@ + n;
    let flag = if spec_is_build_script_compile(u) {
        "1"@
    } else {
        "0"@
    };
    let binary = spec_shell_single_quote(or_empty(u.build_script_binary));
    let cwd = spec_shell_single_quote(or_empty(u.command.cwd));
    let program = spec_shell_single_quote(u.command.program@);
    let pre = "{\n"@ + "  declare -a "@ + args_var + "=("@ + spec_shell_array_literal(
        strings_view(u.command.args@),
    ) + ")\n"@ + "  declare -a "@ + env_var + "=("@ + spec_shell_array_literal(
        env_pairs(u.command.env@),
    ) + ")\n"@;
    let head = "  run_cargo_cmd "@;
    let line = head + flag + " "@ + binary + " "@ + cwd + " "@ + program + " "@ + args_var + " "@
        + env_var + "\n"@;
    assert(line == replay_call(index, u));
    assert((pre + head).subrange(pre.len() as int, (pre.len() + head.len()) as int) =~= head);
    assert forall|a: Seq<char>, l: Seq<char>, t: Seq<char>, i: int|
        occurs_at(a, l, i) && i + l.len() == a.len() implies #[trigger] occurs_at(a + t, l + t, i) by {
        assert((a + t).subrange(i, i + l.len() + t.len()) =~= l + t);
    }
    let whole = pre + head + flag + " "@ + binary + " "@ + cwd + " "@ + program + " "@ + args_var
        + " "@ + env_var + "\n"@;
    assert(occurs_at(whole, line, pre.len() as int));
    assert forall|a: Seq<char>, b: Seq<char>| seq_contains(a, line) implies #[trigger] seq_contains(
        a + b,
        line,
    ) by {
        lemma_contains_append(a, b, line);
    }
    assert(seq_contains(command_block(index, u), line));
}

/// The script holds the block of every unit.
proof fn lemma_script_has_block(units: Seq<Unit>, k: int)
    requires
        0 <= k < units.len(),
    ensures
        seq_contains(spec_render_command_script(units), command_block(k as nat, units[k])),
    decreases units.len(),
{
    let prev = spec_render_command_script(units.drop_last());
    let block = command_block((units.len() - 1) as nat, units.last());
    if k == units.len() - 1 {
        assert((prev + block).subrange(prev.len() as int, (prev.len() + block.len()) as int)
            =~= block);
        assert(occurs_at(prev + block, block, prev.len() as int));
    } else {
        lemma_script_has_block(units.drop_last(), k);
        lemma_contains_append(prev, block, command_block(k as nat, units[k]));
    }
}

/// The replay script calls `run_cargo_cmd` for every unit, passing it the
/// unit's build-script flag, build-script binary, captured working directory
/// (empty only when the command has none) and program, in that order.
pub proof fn lemma_script_replays_every_unit(units: Seq<Unit>, k: int)
    requires
        0 <= k < units.len(),
    ensures
        seq_contains(spec_render_command_script(units), replay_call(k as nat, units[k])),
{
    lemma_script_has_block(units, k);
    lemma_block_has_replay_call(k as nat, units[k]);
    lemma_contains_trans(
        spec_render_command_script(units),
        command_block(k as nat, units[k]),
        replay_call(k as nat, units[k]),
    );
}

fn env_pair_strings(env: &Vec<CommandEnv>) -> (r: Vec<String>)
    ensures
        strings_view(r@) == env_pairs(env@),
{
    let mut r: Vec<String> = Vec::new();
    let mut i: usize = 0;
    while i < env.len()
        invariant
            i <= env@.len(),
            strings_view(r@) == env_pairs(env@.take(i as int)),
        decreases env@.len() - i,
    {
        let mut pair = env[i].key.clone();
        pair.append("=");
        pair.append(env[i].value.as_str());
        let ghost before = strings_view(r@);
        let ghost pv = pair@;
        r.push(pair);
        assert(strings_view(r@) =~= before.push(pv));
        assert(env_pairs(env@.take(i + 1)) =~= env_pairs(env@.take(i as int)).push(
            env@[i as int].key@ + "="@ + env@[i as int].value@,
        ));
        i = i + 1;
    }
    assert(env@.take(i as int) =~= env@);
    r
}

fn opt_or_empty(o: &Option<String>) -> (r: String)
    ensures
        r@ == or_empty(*o),
{
    match o {
        Some(s) => s.clone(),
        None => String::new(),
    }
}

fn render_command_block(index: usize, unit: &Unit) -> (r: String)
    ensures
        r@ == command_block(index as nat, *unit),
{
    let command = &unit.command;
    let n = decimal_string(index);
    let mut args_var = String::from_str("cmd_args_");
    args_var.append(n.as_str());
    let mut env_var = String::from_str("cmd_env_");
    env_var.append(n.as_str());
    let envs = env_pair_strings(&command.env);
    let mut s = String::from_str("{\n");
    s.append("  declare -a ");
    s.append(args_var.as_str());
    s.append("=(");
    s.append(shell_array_literal(&command.args).as_str());
    s.append(")\n");
    s.append("  declare -a ");
    s.append(env_var.as_str());
    s.append("=(");
    s.append(shell_array_literal(&envs).as_str());
    s.append(")\n");
    s.append("  run_cargo_cmd ");
    if is_build_script_compile(unit) {
        s.append("1");
    } else {
        s.append("0");
    }
    s.append(" ");
    s.append(shell_single_quote(opt_or_empty(&unit.build_script_binary).as_str()).as_str());
    s.append(" ");
    s.append(shell_single_quote(opt_or_empty(&command.cwd).as_str()).as_str());
    s.append(" ");
    s.append(shell_single_quote(command.program.as_str()).as_str());
    s.append(" ");
    s.append(args_var.as_str());
    s.append(" ");
    s.append(env_var.as_str());
    s.append("\n");
    s.append("  unset ");
    s.append(args_var.as_str());
    s.append(" ");
    s.append(env_var.as_str());
    s.append("\n");
    s.append("}\n");
    s
}

/// A shell script that replays each unit's command through `run_cargo_cmd`,
/// declaring its arguments and environment as arrays.
pub fn render_command_script(units: &Vec<Unit>) -> (r: String)
    ensures
        r@ == spec_render_command_script(units@),
        forall|k: int| 0 <= k < units@.len() ==> seq_contains(r@, #[trigger] replay_call(k as nat, units@[k])),
{
    let mut script = String::new();
    let mut i: usize = 0;
    while i < units.len()
        invariant
            i <= units@.len(),
            script@ == spec_render_command_script(units@.take(i as int)),
        decreases units@.len() - i,
    {
        let block = render_command_block(i, &units[i]);
        script.append(block.as_str());
        proof {
            assert(units@.take(i + 1).drop_last() =~= units@.take(i as int));
            assert(units@.take(i + 1).last() == units@[i as int]);
        }
        i = i + 1;
    }
    assert(units@.take(i as int) =~= units@);
    proof {
        assert forall|k: int| 0 <= k < units@.len() implies seq_contains(
            script@,
            #[trigger] replay_call(k as nat, units@[k]),
        ) by {
            lemma_script_replays_every_unit(units@, k);
        }
    }
    script
}

} // verus!
