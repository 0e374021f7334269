//! The bash script that builds one package phase inside its derivation.

use vstd::prelude::*;

use crate::command_layout::PackageLayoutRequirements;
use crate::model::{
    Plan, PlanPackage, PATH_MARKER_CARGO_BIN, PATH_MARKER_CARGO_HOME, PATH_MARKER_RUSTC,
    PATH_MARKER_SRC, PATH_MARKER_TARGET,
};
use crate::nix_string::{
    lemma_replace_char_absent, shell_array_literal, shell_single_quote, spec_shell_array_literal, spec_shell_single_quote,
};
use crate::store_path::StorePath;
use crate::text::{
    chars_end_with, chars_of, has_suffix, lemma_contains_append, occurs_at, seq_contains,
    strings_view,
};
use crate::toolchain::Toolchain;

verus! {

/// The start of the builder script: strict mode, a target directory and a
/// home directory under `$TMPDIR`.
pub const BUILDER_HEAD: &'static str = "set -euo pipefail\nexport CARGO_TARGET_DIR=\"$TMPDIR/target\"\nmkdir -p \"$CARGO_TARGET_DIR\"\nmkdir -p \"$TMPDIR/home\"\nexport HOME=\"$TMPDIR/home\"\n";

/// An empty Cargo home under `$TMPDIR`, for packages that need no snapshot.
pub const BUILDER_LOCAL_CARGO_HOME: &'static str = "export NIXCARGO_CARGO_HOME=\"$TMPDIR/cargo-home\"\nmkdir -p \"$NIXCARGO_CARGO_HOME\"\n";

/// Points Cargo at the Cargo home chosen above.
pub const BUILDER_CARGO_HOME_EXPORT: &'static str = "export CARGO_HOME=\"$NIXCARGO_CARGO_HOME\"\n";

/// The target directory layout: build-script bookkeeping and the `deps`,
/// `build` and `examples` directories for the host and each target triple.
pub const BUILDER_DIRS: &'static str = "declare -A nixcargo_build_script_runs=()\ndeclare -A nixcargo_build_script_binaries=()\nmkdir -p \"$CARGO_TARGET_DIR/$buildMode/deps\"\nmkdir -p \"$CARGO_TARGET_DIR/$buildMode/build\"\nmkdir -p \"$CARGO_TARGET_DIR/$buildMode/examples\"\nfor targetTriple in \"${targetTriples[@]}\"; do\n  mkdir -p \"$CARGO_TARGET_DIR/$targetTriple/$buildMode/deps\"\n  mkdir -p \"$CARGO_TARGET_DIR/$targetTriple/$buildMode/build\"\n  mkdir -p \"$CARGO_TARGET_DIR/$targetTriple/$buildMode/examples\"\ndone\n";

/// Opens the here-document that holds the package's commands.
pub const BUILDER_COMMANDS_OPEN: &'static str = "scriptFile=\"$TMPDIR/nix-cargo-package-commands.sh\"\ncat > \"$scriptFile\" <<'__NIX_CARGO_COMMANDS__'\n";

/// Closes the here-document and runs the commands.
pub const BUILDER_COMMANDS_CLOSE: &'static str = "__NIX_CARGO_COMMANDS__\nsource \"$scriptFile\"\n";

/// Shell functions of the builder script: copying dependency outputs into
/// the target directory, rewriting markers, and running one captured command.
pub const BUILDER_FUNCTIONS: &'static str = r#"
copy_tree_if_exists() {
  local srcDir="$1"
  local dstDir="$2"
  if [ -d "$srcDir" ]; then
    mkdir -p "$dstDir"
    cp -R -n "$srcDir/." "$dstDir/"
  fi
}
for depPath in "${depPaths[@]}"; do
  if [ -d "$depPath" ]; then
    if [ "$needsHostArtifacts" -eq 1 ]; then
      copy_tree_if_exists "$depPath/deps" "$CARGO_TARGET_DIR/$buildMode/deps"
      copy_tree_if_exists "$depPath/build" "$CARGO_TARGET_DIR/$buildMode/build"
      copy_tree_if_exists "$depPath/examples" "$CARGO_TARGET_DIR/$buildMode/examples"
      copy_tree_if_exists "$depPath/.fingerprint" "$CARGO_TARGET_DIR/$buildMode/.fingerprint"
    fi
    for targetTriple in "${targetTriples[@]}"; do
      copy_tree_if_exists "$depPath/$targetTriple/deps" "$CARGO_TARGET_DIR/$targetTriple/$buildMode/deps"
      copy_tree_if_exists "$depPath/$targetTriple/build" "$CARGO_TARGET_DIR/$targetTriple/$buildMode/build"
      copy_tree_if_exists "$depPath/$targetTriple/examples" "$CARGO_TARGET_DIR/$targetTriple/$buildMode/examples"
      copy_tree_if_exists "$depPath/$targetTriple/.fingerprint" "$CARGO_TARGET_DIR/$targetTriple/$buildMode/.fingerprint"
    done
  fi
done
rewrite_value() {
  local value="$1"
  value="${value//${markerTarget}/$CARGO_TARGET_DIR}"
  value="${value//${markerSrc}/$NIXCARGO_SRC}"
  value="${value//${markerCargoHome}/$NIXCARGO_CARGO_HOME}"
  value="${value//${markerRustc}/$NIXCARGO_RUSTC}"
  value="${value//${markerCargoBin}/$NIXCARGO_CARGO}"
  value="${value//${planWorkspaceRoot}/$NIXCARGO_SRC}"
  value="${value//${planTargetDir}/$CARGO_TARGET_DIR}"
  printf '%s' "$value"
}
run_cargo_cmd() {
  local isBuildScriptCompile="$1"
  shift
  local buildScriptBinaryHintRaw="$1"
  shift
  local cwdRaw="$1"
  shift
  local programRaw="$1"
  shift
  local -n argsRef="$1"
  shift
  local -n envRef="$1"
  local cwd program entry key value status outDir manifestDir runDir outputPath buildScriptBinary buildScriptBinaryHint
  local -a args=()
  local -a envArgs=()
  cwd="$(rewrite_value "$cwdRaw")"
  program="$(rewrite_value "$programRaw")"
  buildScriptBinaryHint="$(rewrite_value "$buildScriptBinaryHintRaw")"
  for entry in "${envRef[@]}"; do
    key="${entry%%=*}"
    value="${entry#*=}"
    envArgs+=("${key}=$(rewrite_value "$value")")
  done
  local -a rewrittenArgs=()
  local nextIndex nextValue scanIndex emitEntry
  for entry in "${argsRef[@]}"; do
    rewrittenArgs+=("$(rewrite_value "$entry")")
  done
  ensure_parent_dir() {
    local path="$1"
    if [ -n "$path" ]; then
      mkdir -p "$(dirname "$path")"
    fi
  }
  ensure_dep_info_parent_dirs() {
    local emitSpecValue="$1"
    local -a emitParts=()
    IFS=',' read -r -a emitParts <<< "$emitSpecValue"
    for emitEntry in "${emitParts[@]}"; do
      if [[ "$emitEntry" == dep-info=* ]]; then
        ensure_parent_dir "${emitEntry#dep-info=}"
      fi
    done
  }
  scanIndex=0
  while [ "$scanIndex" -lt "${#rewrittenArgs[@]}" ]; do
    entry="${rewrittenArgs[$scanIndex]}"
    if [ "$entry" = "--out-dir" ] && [ $((scanIndex + 1)) -lt "${#rewrittenArgs[@]}" ]; then
      mkdir -p "${rewrittenArgs[$((scanIndex + 1))]}"
    elif [[ "$entry" == --out-dir=* ]]; then
      mkdir -p "${entry#--out-dir=}"
    elif [ "$entry" = "-o" ] && [ $((scanIndex + 1)) -lt "${#rewrittenArgs[@]}" ]; then
      ensure_parent_dir "${rewrittenArgs[$((scanIndex + 1))]}"
    elif [ "$entry" = "--emit" ] && [ $((scanIndex + 1)) -lt "${#rewrittenArgs[@]}" ]; then
      ensure_dep_info_parent_dirs "${rewrittenArgs[$((scanIndex + 1))]}"
    elif [[ "$entry" == --emit=* ]]; then
      ensure_dep_info_parent_dirs "${entry#--emit=}"
    fi
    scanIndex=$((scanIndex + 1))
  done
  nextIndex=0
  while [ "$nextIndex" -lt "${#rewrittenArgs[@]}" ]; do
    entry="${rewrittenArgs[$nextIndex]}"
    if [ "$entry" = "-C" ] && [ $((nextIndex + 1)) -lt "${#rewrittenArgs[@]}" ]; then
      nextValue="${rewrittenArgs[$((nextIndex + 1))]}"
      if [[ "$nextValue" == incremental=* ]]; then
        nextIndex=$((nextIndex + 2))
        continue
      fi
    fi
    if [[ "$entry" == -Cincremental=* ]]; then
      nextIndex=$((nextIndex + 1))
      continue
    fi
    args+=("$entry")
    nextIndex=$((nextIndex + 1))
  done
  outDir=""
  manifestDir=""
  for entry in "${envArgs[@]}"; do
    key="${entry%%=*}"
    value="${entry#*=}"
    if [ "$key" = "OUT_DIR" ]; then
      outDir="$value"
    fi
    if [ "$key" = "CARGO_MANIFEST_DIR" ]; then
      manifestDir="$value"
    fi
  done
  runDir="$manifestDir"
  if [ -z "$runDir" ]; then
    runDir="$cwd"
  fi
  outputPath=""
  nextIndex=0
  while [ "$nextIndex" -lt "${#args[@]}" ]; do
    entry="${args[$nextIndex]}"
    if [ "$entry" = "-o" ] && [ $((nextIndex + 1)) -lt "${#args[@]}" ]; then
      outputPath="${args[$((nextIndex + 1))]}"
      nextIndex=$((nextIndex + 2))
      continue
    fi
    nextIndex=$((nextIndex + 1))
  done
  buildScriptBinary=""
  if [ -n "$buildScriptBinaryHint" ]; then
    buildScriptBinary="$buildScriptBinaryHint"
  elif [ -n "$runDir" ] && [ -n "${nixcargo_build_script_binaries[$runDir]:-}" ]; then
    buildScriptBinary="${nixcargo_build_script_binaries[$runDir]}"
  fi
  if [ "$isBuildScriptCompile" -ne 1 ] && [ -n "$outDir" ] && [ -n "$buildScriptBinary" ] && [ -x "$buildScriptBinary" ] && [ -z "${nixcargo_build_script_runs[$outDir]+x}" ]; then
    mkdir -p "$outDir"
    if [ -n "$runDir" ]; then
      (cd "$runDir" && env "${envArgs[@]}" OUT_DIR="$outDir" CARGO_MANIFEST_DIR="$runDir" "$buildScriptBinary")
    else
      env "${envArgs[@]}" OUT_DIR="$outDir" CARGO_MANIFEST_DIR="$runDir" "$buildScriptBinary"
    fi
    nixcargo_build_script_runs[$outDir]=1
  fi
  if [ -n "$cwd" ]; then
    pushd "$cwd" > /dev/null
  fi
  env "${envArgs[@]}" "$program" "${args[@]}"
  status=$?
  if [ "$status" -eq 0 ] && [ "$isBuildScriptCompile" -eq 1 ]; then
    if [ -z "$outputPath" ] && [ -n "$buildScriptBinaryHint" ]; then
      outputPath="$buildScriptBinaryHint"
    fi
    if [ -z "$outputPath" ]; then
      echo "nix-cargo: missing build-script binary path for runDir=$runDir" >&2
      return 1
    fi
    if [ -n "$outputPath" ] && [ -x "$outputPath" ]; then
      if [ -n "$runDir" ]; then
        nixcargo_build_script_binaries[$runDir]="$outputPath"
      fi
    fi
  fi
  if [ -n "$cwd" ]; then
    popd > /dev/null
  fi
  return "$status"
}
"#;

/// The end of the builder script: installing the build layout into `$out`.
pub const BUILDER_INSTALL: &'static str = r#"
mkdir -p "$out"
copied=0
copy_install_layout() {
  local srcRoot="$1"
  local dstRoot="$2"
  if [ -d "$srcRoot/deps" ]; then
    mkdir -p "$dstRoot/deps"
    shopt -s nullglob
    for artifact in "$srcRoot/deps"/*; do
      case "$artifact" in
        *.d) continue ;;
      esac
      cp -R "$artifact" "$dstRoot/deps/"
    done
    shopt -u nullglob
    copied=1
  fi
  if [ -d "$srcRoot/build" ]; then
    cp -R "$srcRoot/build" "$dstRoot/"
    copied=1
  fi
  if [ -d "$srcRoot/examples" ]; then
    cp -R "$srcRoot/examples" "$dstRoot/"
    copied=1
  fi
  if [ -d "$srcRoot/.fingerprint" ]; then
    cp -R "$srcRoot/.fingerprint" "$dstRoot/"
    copied=1
  fi
}
if [ "$needsHostArtifacts" -eq 1 ]; then
  copy_install_layout "$CARGO_TARGET_DIR/$buildMode" "$out"
fi
for targetTriple in "${targetTriples[@]}"; do
  mkdir -p "$out/$targetTriple"
  copy_install_layout "$CARGO_TARGET_DIR/$targetTriple/$buildMode" "$out/$targetTriple"
done
if [ "$copied" -eq 0 ]; then
  touch "$out/.nix-cargo-empty"
fi
"#;

/// A shell assignment (or `export`) of a single-quoted value, on its own line.
pub open spec fn assignment(name: Seq<char>, value: Seq<char>) -> Seq<char> {
    name + "="@ + spec_shell_single_quote(value) + "\n"@
}

/// The builder script of one package phase.
#[verifier::opaque]
pub open spec fn spec_builder_script(
    workspace_root: Seq<char>,
    target_dir: Seq<char>,
    target_triples: Seq<Seq<char>>,
    needs_host_artifacts: bool,
    rustc_bin: Seq<char>,
    cargo_bin: Seq<char>,
    source: Seq<char>,
    cargo_home: Option<Seq<char>>,
    dependency_output_paths: Seq<Seq<char>>,
    command_script: Seq<char>,
    release_mode: bool,
) -> Seq<char> {
    BUILDER_HEAD@ + assignment("export NIXCARGO_SRC"@, source) + match cargo_home {
        Some(home) => assignment("export NIXCARGO_CARGO_HOME"@, home),
        None => BUILDER_LOCAL_CARGO_HOME@,
    } + assignment("export NIXCARGO_RUSTC"@, rustc_bin) + assignment(
        "export NIXCARGO_CARGO"@,
        cargo_bin,
    ) + BUILDER_CARGO_HOME_EXPORT@ + assignment("markerTarget"@, PATH_MARKER_TARGET@) + assignment(
        "markerSrc"@,
        PATH_MARKER_SRC@,
    ) + assignment("markerCargoHome"@, PATH_MARKER_CARGO_HOME@) + assignment(
        "markerRustc"@,
        PATH_MARKER_RUSTC@,
    ) + assignment("markerCargoBin"@, PATH_MARKER_CARGO_BIN@) + assignment(
        "planWorkspaceRoot"@,
        workspace_root,
    ) + assignment("planTargetDir"@, target_dir) + assignment(
        "buildMode"@,
        if release_mode {
            "release"@
        } else {
            "debug"@
        },
    ) + "depPaths=("@ + spec_shell_array_literal(dependency_output_paths) + ")\n"@
        + "targetTriples=("@ + spec_shell_array_literal(target_triples) + ")\n"@
        + "needsHostArtifacts="@ + (if needs_host_artifacts {
        "1"@
    } else {
        "0"@
    }) + "\n"@ + BUILDER_DIRS@ + BUILDER_FUNCTIONS@ + BUILDER_COMMANDS_OPEN@ + command_script + (
    if has_suffix(command_script, "\n"@) {
        Seq::empty()
    } else {
        "\n"@
    }) + BUILDER_COMMANDS_CLOSE@ + BUILDER_INSTALL@
}

/// The line that selects the build mode: `release` for a release build,
/// `debug` otherwise.
pub open spec fn build_mode_line(release_mode: bool) -> Seq<char> {
    if release_mode {
        "buildMode='release'\n"@
    } else {
        "buildMode='debug'\n"@
    }
}

/// The builder script of a release phase sets `buildMode='release'`, and that
/// of a debug phase sets `buildMode='debug'`, whatever the other inputs are:
/// dependency artifacts are then hydrated into, and installed from, the
/// profile directory that the replayed commands write to.
pub proof fn lemma_builder_script_build_mode(
    workspace_root: Seq<char>,
    target_dir: Seq<char>,
    target_triples: Seq<Seq<char>>,
    needs_host_artifacts: bool,
    rustc_bin: Seq<char>,
    cargo_bin: Seq<char>,
    source: Seq<char>,
    cargo_home: Option<Seq<char>>,
    dependency_output_paths: Seq<Seq<char>>,
    command_script: Seq<char>,
    release_mode: bool,
)
    ensures
        seq_contains(
            spec_builder_script(
                workspace_root,
                target_dir,
                target_triples,
                needs_host_artifacts,
                rustc_bin,
                cargo_bin,
                source,
                cargo_home,
                dependency_output_paths,
                command_script,
                release_mode,
            ),
            build_mode_line(release_mode),
        ),
{
    reveal(spec_builder_script);
    reveal_strlit("buildMode='release'\n");
    reveal_strlit("buildMode='debug'\n");
    reveal_strlit("buildMode");
    reveal_strlit("release");
    reveal_strlit("debug");
    reveal_strlit("=");
    reveal_strlit("'");
    reveal_strlit("\n");
    let mode = if release_mode {
        "release"@
    } else {
        "debug"@
    };
    lemma_replace_char_absent(mode, '\'', "'\"'\"'"@);
    let line = assignment("buildMode"@, mode);
    assert(line =~= build_mode_line(release_mode));
    let pre = BUILDER_HEAD@ + assignment("export NIXCARGO_SRC"@, source) + match cargo_home {
        Some(home) => assignment("export NIXCARGO_CARGO_HOME"@, home),
        None => BUILDER_LOCAL_CARGO_HOME@,
    } + assignment("export NIXCARGO_RUSTC"@, rustc_bin) + assignment(
        "export NIXCARGO_CARGO"@,
        cargo_bin,
    ) + BUILDER_CARGO_HOME_EXPORT@ + assignment("markerTarget"@, PATH_MARKER_TARGET@) + assignment(
        "markerSrc"@,
        PATH_MARKER_SRC@,
    ) + assignment("markerCargoHome"@, PATH_MARKER_CARGO_HOME@) + assignment(
        "markerRustc"@,
        PATH_MARKER_RUSTC@,
    ) + assignment("markerCargoBin"@, PATH_MARKER_CARGO_BIN@) + assignment(
        "planWorkspaceRoot"@,
        workspace_root,
    ) + assignment("planTargetDir"@, target_dir);
    let s = spec_builder_script(
        workspace_root,
        target_dir,
        target_triples,
        needs_host_artifacts,
        rustc_bin,
        cargo_bin,
        source,
        cargo_home,
        dependency_output_paths,
        command_script,
        release_mode,
    );
    assert((pre + line).subrange(pre.len() as int, (pre.len() + line.len()) as int) =~= line);
    assert(occurs_at(pre + line, line, pre.len() as int));
    assert forall|a: Seq<char>, b: Seq<char>| seq_contains(a, line) implies #[trigger] seq_contains(
        a + b,
        line,
    ) by {
        lemma_contains_append(a, b, line);
    }
    assert(seq_contains(s, line));
}

/// Appends `name='value'` and a newline.
fn append_assignment(script: &mut String, name: &str, value: &str)
    ensures
        final(script)@ == old(script)@ + assignment(name@, value@),
{
    script.append(name);
    script.append("=");
    script.append(shell_single_quote(value).as_str());
    script.append("\n");
}

/// The builder script of one package phase: it sets up the target directory
/// and Cargo home, copies the dependency outputs in, runs the phase's
/// commands, and installs the build layout into `$out`.
pub fn render_package_builder_script(
    plan: &Plan,
    package: &PlanPackage,
    layout: &PackageLayoutRequirements,
    toolchain: &Toolchain,
    source_store_path: &StorePath,
    cargo_home_snapshot: Option<&StorePath>,
    dependency_output_paths: &Vec<String>,
    command_script: &str,
    release_mode: bool,
) -> (r: String)
    ensures
        r@ == spec_builder_script(
            plan.workspace_root@,
            plan.target_dir@,
            strings_view(layout.target_triples@),
            layout.needs_host_artifacts,
            toolchain.rustc.out_path@ + "/bin/rustc"@,
            toolchain.cargo.out_path@ + "/bin/cargo"@,
            source_store_path@,
            match cargo_home_snapshot {
                Some(p) => Some(p@),
                None => None,
            },
            strings_view(dependency_output_paths@),
            command_script@,
            release_mode,
        ),
        seq_contains(r@, build_mode_line(release_mode)),
{
    let build_mode = if release_mode {
        "release"
    } else {
        "debug"
    };
    let mut script = String::new();
    script.append(BUILDER_HEAD);
    append_assignment(&mut script, "export NIXCARGO_SRC", source_store_path.to_string().as_str());
    match cargo_home_snapshot {
        Some(cargo_home) => {
            append_assignment(
                &mut script,
                "export NIXCARGO_CARGO_HOME",
                cargo_home.to_string().as_str(),
            );
        },
        None => {
            script.append(BUILDER_LOCAL_CARGO_HOME);
        },
    }
    append_assignment(&mut script, "export NIXCARGO_RUSTC", toolchain.rustc_bin().as_str());
    append_assignment(&mut script, "export NIXCARGO_CARGO", toolchain.cargo_bin().as_str());
    script.append(BUILDER_CARGO_HOME_EXPORT);
    append_assignment(&mut script, "markerTarget", PATH_MARKER_TARGET);
    append_assignment(&mut script, "markerSrc", PATH_MARKER_SRC);
    append_assignment(&mut script, "markerCargoHome", PATH_MARKER_CARGO_HOME);
    append_assignment(&mut script, "markerRustc", PATH_MARKER_RUSTC);
    append_assignment(&mut script, "markerCargoBin", PATH_MARKER_CARGO_BIN);
    append_assignment(&mut script, "planWorkspaceRoot", plan.workspace_root.as_str());
    append_assignment(&mut script, "planTargetDir", plan.target_dir.as_str());
    append_assignment(&mut script, "buildMode", build_mode);
    script.append("depPaths=(");
    script.append(shell_array_literal(dependency_output_paths).as_str());
    script.append(")\n");
    script.append("targetTriples=(");
    script.append(shell_array_literal(&layout.target_triples).as_str());
    script.append(")\n");
    script.append("needsHostArtifacts=");
    script.append(
        if layout.needs_host_artifacts {
            "1"
        } else {
            "0"
        },
    );
    script.append("\n");
    script.append(BUILDER_DIRS);
    script.append(BUILDER_FUNCTIONS);
    script.append(BUILDER_COMMANDS_OPEN);
    script.append(command_script);
    if !chars_end_with(&chars_of(command_script), &chars_of("\n")) {
        script.append("\n");
    }
    script.append(BUILDER_COMMANDS_CLOSE);
    script.append(BUILDER_INSTALL);
    proof {
        reveal(spec_builder_script);
        lemma_builder_script_build_mode(
            plan.workspace_root@,
            plan.target_dir@,
            strings_view(layout.target_triples@),
            layout.needs_host_artifacts,
            toolchain.rustc.out_path@ + "/bin/rustc"@,
            toolchain.cargo.out_path@ + "/bin/cargo"@,
            source_store_path@,
            match cargo_home_snapshot {
                Some(p) => Some(p@),
                None => None,
            },
            strings_view(dependency_output_paths@),
            command_script@,
            release_mode,
        );
    }
    script
}

} // verus!
