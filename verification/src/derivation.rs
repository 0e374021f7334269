//! Nix derivations, as `nix derivation add` takes them.

use vstd::prelude::*;

use crate::derived_path::{base_store_path, SingleDerivedPath, SingleDerivedPathBuilt};
use crate::store_path::StorePath;
use crate::string_map::{
    entries_find, entries_insert, entries_remove, entries_view, key_seq, lemma_entry_in_view,
    lemma_view_key, lemma_view_len, StringMap, StringSet,
};
use crate::text::{chars_of, file_name_of, path_file_name, string_from_chars, strings_contain, strings_view};

verus! {

/// Hash algorithm used for Nix operations.
#[derive(Debug, Clone, Copy, PartialEq, Eq, Structural)]
pub enum HashAlgorithm {
    Sha256,
    Sha512,
}

/// Output hash mode for derivations.
#[derive(Debug, Clone, Copy, PartialEq, Eq, Structural)]
pub enum OutputHashMode {
    Flat,
    Nar,
    Text,
}

/// Output specification.
#[derive(Debug, Clone)]
pub struct Output {
    /// Output store path base name.
    pub path: Option<String>,
    /// Hash algorithm for content-addressed derivations.
    pub hash_algo: Option<HashAlgorithm>,
    /// Output hash mode for content-addressed derivations.
    pub method: Option<OutputHashMode>,
    /// Output hash for fixed-output derivations.
    pub hash: Option<String>,
}

/// Dynamic output specification for dynamic derivations.
#[derive(Debug)]
pub struct DynamicOutput {
    /// Outputs of the dynamic derivation.
    pub outputs: Vec<String>,
    /// Nested dynamic outputs.
    pub dynamic_outputs: DynamicOutputs,
}

/// Dynamic outputs by output name.
#[derive(Debug)]
pub struct DynamicOutputs {
    entries: Vec<(String, DynamicOutput)>,
}

impl View for DynamicOutputs {
    type V = Map<Seq<char>, DynamicOutput>;

    closed spec fn view(&self) -> Map<Seq<char>, DynamicOutput> {
        entries_view(self.entries@)
    }
}

impl DynamicOutputs {
    #[verifier::type_invariant]
    spec fn well_formed(self) -> bool {
        key_seq(self.entries@).no_duplicates()
    }

    /// No dynamic outputs.
    pub fn new() -> (r: Self)
        ensures
            r@ == Map::<Seq<char>, DynamicOutput>::empty(),
    {
        let r = DynamicOutputs { entries: Vec::new() };
        assert(r@ =~= Map::<Seq<char>, DynamicOutput>::empty());
        r
    }

    /// The number of dynamic outputs.
    pub fn len(&self) -> (r: usize)
        ensures
            self@.dom().finite(),
            r == self@.len(),
    {
        proof {
            use_type_invariant(self);
            lemma_view_len(self.entries@);
        }
        self.entries.len()
    }

    /// Whether there are no dynamic outputs.
    pub fn is_empty(&self) -> (r: bool)
        ensures
            r <==> self@.dom() == Set::<Seq<char>>::empty(),
    {
        proof {
            use_type_invariant(self);
            lemma_view_len(self.entries@);
            if self.entries@.len() > 0 {
                lemma_entry_in_view(self.entries@, 0);
                assert(self@.dom().contains(self.entries@[0].0@));
            } else {
                assert(self@.dom() =~= Set::<Seq<char>>::empty());
            }
        }
        self.entries.len() == 0
    }

    /// The dynamic output named `key`, if any.
    pub fn get(&self, key: &str) -> (r: Option<&DynamicOutput>)
        ensures
            r is Some <==> self@.contains_key(key@),
            r matches Some(v) ==> *v == self@[key@],
    {
        proof {
            use_type_invariant(self);
            lemma_view_key(self.entries@, key@);
        }
        match entries_find(&self.entries, key) {
            Some(i) => {
                proof {
                    lemma_entry_in_view(self.entries@, i as int);
                }
                Some(&self.entries[i].1)
            },
            None => None,
        }
    }

    /// Stores `value` under `key`, replacing any earlier value.
    pub fn insert(&mut self, key: String, value: DynamicOutput)
        ensures
            final(self)@ == old(self)@.insert(key@, value),
    {
        proof {
            use_type_invariant(&*self);
        }
        let mut entries: Vec<(String, DynamicOutput)> = Vec::new();
        std::mem::swap(&mut entries, &mut self.entries);
        entries_insert(&mut entries, key, value);
        self.entries = entries;
    }

    /// Removes and returns the dynamic output named `key`, if any.
    pub fn remove(&mut self, key: &str) -> (r: Option<DynamicOutput>)
        ensures
            r is Some <==> old(self)@.contains_key(key@),
            r matches Some(v) ==> v == old(self)@[key@],
            final(self)@ == old(self)@.remove(key@),
    {
        proof {
            use_type_invariant(&*self);
        }
        let mut entries: Vec<(String, DynamicOutput)> = Vec::new();
        std::mem::swap(&mut entries, &mut self.entries);
        let r = entries_remove(&mut entries, key);
        self.entries = entries;
        r
    }

    /// The entries, for iteration.
    pub fn entries(&self) -> (r: &Vec<(String, DynamicOutput)>)
        ensures
            entries_view(r@) == self@,
            key_seq(r@).no_duplicates(),
    {
        proof {
            use_type_invariant(self);
        }
        &self.entries
    }
}

/// Input derivation specification.
#[derive(Debug)]
pub struct InputDrv {
    /// Outputs of the input derivation.
    pub outputs: Vec<String>,
    /// Dynamic outputs for dynamic derivations.
    pub dynamic_outputs: DynamicOutputs,
}

/// Input references for a derivation.
#[derive(Debug)]
pub struct Inputs {
    /// Input derivations.
    pub drvs: StringMap<InputDrv>,
    /// Input source store paths.
    pub srcs: StringSet,
}

/// A Nix derivation.
#[derive(Debug)]
pub struct Derivation {
    /// Derivation format version.
    pub version: u64,
    /// The name of the derivation.
    pub name: String,
    /// The system type (e.g. "x86_64-linux").
    pub system: String,
    /// The builder executable path.
    pub builder: String,
    /// Arguments to pass to the builder.
    pub args: Vec<String>,
    /// Environment variables for the build.
    pub env: StringMap<String>,
    /// Inputs (derivations and sources).
    pub inputs: Inputs,
    /// Output specifications.
    pub outputs: StringMap<Output>,
}

/// The derivation format version this library writes.
pub open spec fn spec_default_derivation_version() -> u64 {
    4
}

fn default_derivation_version() -> (r: u64)
    ensures
        r == spec_default_derivation_version(),
{
    4
}

/// The base name of a path (its last component), or the whole value when it
/// has none.
pub open spec fn spec_base_name(value: Seq<char>) -> Seq<char> {
    match path_file_name(value) {
        Some(name) => name,
        None => value,
    }
}

/// The base name of a store path given as a string, or the whole string
/// when it has no last component.
fn store_path_base_name_from_str(value: &str) -> (r: String)
    ensures
        r@ == spec_base_name(value@),
{
    let chars = chars_of(value);
    match file_name_of(&chars) {
        Some(name) => string_from_chars(&name),
        None => String::from_str(value),
    }
}

/// `after` is `before` with `key` set to `value`.
pub open spec fn env_set(
    before: Map<Seq<char>, String>,
    after: Map<Seq<char>, String>,
    key: Seq<char>,
    value: Seq<char>,
) -> bool {
    &&& after.contains_key(key)
    &&& after[key]@ == value
    &&& after.remove(key) == before.remove(key)
}

/// `after` is `before` with the path of output `name`, if there is one, set
/// to the base name of `path`.
pub open spec fn output_path_set(
    before: Map<Seq<char>, Output>,
    after: Map<Seq<char>, Output>,
    name: Seq<char>,
    path: Seq<char>,
) -> bool {
    &&& before.contains_key(name) ==> {
        &&& after.contains_key(name)
        &&& after.remove(name) == before.remove(name)
        &&& after[name].path matches Some(p) && p@ == spec_base_name(path)
        &&& after[name].hash_algo == before[name].hash_algo
        &&& after[name].method == before[name].method
        &&& after[name].hash == before[name].hash
    }
    &&& !before.contains_key(name) ==> after == before
}

/// All fields but `args` are the same.
pub open spec fn same_but_args(a: Derivation, b: Derivation) -> bool {
    a.version == b.version && a.name == b.name && a.system == b.system && a.builder == b.builder
        && a.env@ == b.env@ && a.inputs.drvs@ == b.inputs.drvs@ && a.inputs.srcs@ == b.inputs.srcs@
        && a.outputs@ == b.outputs@
}

/// All fields but `env` are the same.
pub open spec fn same_but_env(a: Derivation, b: Derivation) -> bool {
    a.version == b.version && a.name == b.name && a.system == b.system && a.builder == b.builder
        && a.args@ == b.args@ && a.inputs.drvs@ == b.inputs.drvs@ && a.inputs.srcs@
        == b.inputs.srcs@ && a.outputs@ == b.outputs@
}

/// All fields but `outputs` are the same.
pub open spec fn same_but_outputs(a: Derivation, b: Derivation) -> bool {
    a.version == b.version && a.name == b.name && a.system == b.system && a.builder == b.builder
        && a.args@ == b.args@ && a.env@ == b.env@ && a.inputs.drvs@ == b.inputs.drvs@
        && a.inputs.srcs@ == b.inputs.srcs@
}

/// All fields but the input sources are the same.
pub open spec fn same_but_srcs(a: Derivation, b: Derivation) -> bool {
    a.version == b.version && a.name == b.name && a.system == b.system && a.builder == b.builder
        && a.args@ == b.args@ && a.env@ == b.env@ && a.inputs.drvs@ == b.inputs.drvs@
        && a.outputs@ == b.outputs@
}

/// All fields but the input derivations are the same.
pub open spec fn same_but_drvs(a: Derivation, b: Derivation) -> bool {
    a.version == b.version && a.name == b.name && a.system == b.system && a.builder == b.builder
        && a.args@ == b.args@ && a.env@ == b.env@ && a.inputs.srcs@ == b.inputs.srcs@
        && a.outputs@ == b.outputs@
}

impl Derivation {
    /// Create a new derivation with no arguments, environment, inputs or outputs.
    pub fn new(name: &str, system: &str, builder: &str) -> (r: Self)
        ensures
            r.version == spec_default_derivation_version(),
            r.name@ == name@,
            r.system@ == system@,
            r.builder@ == builder@,
            r.args@.len() == 0,
            r.env@ == Map::<Seq<char>, String>::empty(),
            r.inputs.drvs@ == Map::<Seq<char>, InputDrv>::empty(),
            r.inputs.srcs@ == Set::<Seq<char>>::empty(),
            r.outputs@ == Map::<Seq<char>, Output>::empty(),
    {
        Self {
            version: default_derivation_version(),
            name: String::from_str(name),
            system: String::from_str(system),
            builder: String::from_str(builder),
            args: Vec::new(),
            env: StringMap::new(),
            inputs: Inputs { drvs: StringMap::new(), srcs: StringSet::new() },
            outputs: StringMap::new(),
        }
    }

    /// Add an argument to the builder.
    pub fn add_arg(&mut self, arg: &str) -> (r: &mut Self)
        ensures
            strings_view(r.args@) == strings_view(old(self).args@).push(arg@),
            same_but_args(*r, *old(self)),
            *final(self) == *final(r),
    {
        self.args.push(String::from_str(arg));
        proof {
            assert(strings_view(self.args@) =~= strings_view(old(self).args@).push(arg@));
        }
        self
    }

    /// Set an environment variable.
    pub fn set_env(&mut self, key: &str, value: &str) -> (r: &mut Self)
        ensures
            env_set(old(self).env@, r.env@, key@, value@),
            same_but_env(*r, *old(self)),
            *final(self) == *final(r),
    {
        self.env.insert(String::from_str(key), String::from_str(value));
        proof {
            assert(self.env@.remove(key@) =~= old(self).env@.remove(key@));
        }
        self
    }

    /// Add an output with no path.
    pub fn add_output(
        &mut self,
        name: &str,
        hash_algo: Option<HashAlgorithm>,
        method: Option<OutputHashMode>,
        hash: Option<String>,
    ) -> (r: &mut Self)
        ensures
            r.outputs@ == old(self).outputs@.insert(
                name@,
                Output { path: None, hash_algo: hash_algo, method: method, hash: hash },
            ),
            same_but_outputs(*r, *old(self)),
            *final(self) == *final(r),
    {
        self.outputs.insert(String::from_str(name), Output { path: None, hash_algo, method, hash });
        self
    }

    /// Add a content-addressed output.
    pub fn add_ca_output(&mut self, name: &str, hash_algo: HashAlgorithm, method: OutputHashMode) -> (r:
        &mut Self)
        ensures
            r.outputs@ == old(self).outputs@.insert(
                name@,
                Output { path: None, hash_algo: Some(hash_algo), method: Some(method), hash: None },
            ),
            same_but_outputs(*r, *old(self)),
            *final(self) == *final(r),
    {
        self.outputs.insert(
            String::from_str(name),
            Output { path: None, hash_algo: Some(hash_algo), method: Some(method), hash: None },
        );
        self
    }
}


/// The outputs recorded at the node reached from a root with `outputs` and
/// dynamic outputs `children` by following the output names in `path`, or
/// `None` when there is no such node.
pub open spec fn node_outputs(
    outputs: Seq<String>,
    children: Map<Seq<char>, DynamicOutput>,
    path: Seq<Seq<char>>,
) -> Option<Seq<Seq<char>>>
    decreases path.len(),
{
    if path.len() == 0 {
        Some(strings_view(outputs))
    } else if children.contains_key(path[0]) {
        node_outputs(
            children[path[0]].outputs@,
            children[path[0]].dynamic_outputs@,
            path.drop_first(),
        )
    } else {
        None
    }
}

/// `s` with `x` appended unless it already holds it.
pub open spec fn add_unique(s: Seq<Seq<char>>, x: Seq<char>) -> Seq<Seq<char>> {
    if s.contains(x) {
        s
    } else {
        s.push(x)
    }
}

/// `p` is a prefix of `s`.
pub open spec fn is_prefix_of(p: Seq<Seq<char>>, s: Seq<Seq<char>>) -> bool {
    p.len() <= s.len() && s.take(p.len() as int) == p
}

/// The outputs at the node at `path` after the chain of output names `chain`
/// (intermediate dynamic levels, then the final output) was added, given the
/// outputs `before` at that node: every node along the levels exists, and the
/// last one lists the final output.
pub open spec fn outputs_after_add(
    before: Option<Seq<Seq<char>>>,
    path: Seq<Seq<char>>,
    chain: Seq<Seq<char>>,
) -> Option<Seq<Seq<char>>> {
    let levels = chain.drop_last();
    if is_prefix_of(path, levels) {
        let base = match before {
            Some(o) => o,
            None => Seq::<Seq<char>>::empty(),
        };
        if path.len() == levels.len() {
            Some(add_unique(base, chain.last()))
        } else {
            Some(base)
        }
    } else {
        before
    }
}

/// The node tree (`new_outputs`, `new_children`) is the tree (`old_outputs`,
/// `old_children`) with the chain of output names `chain` added.
pub open spec fn chain_added(
    old_outputs: Seq<String>,
    old_children: Map<Seq<char>, DynamicOutput>,
    new_outputs: Seq<String>,
    new_children: Map<Seq<char>, DynamicOutput>,
    chain: Seq<Seq<char>>,
) -> bool {
    forall|path: Seq<Seq<char>>| #[trigger]
        node_outputs(new_outputs, new_children, path) == outputs_after_add(
            node_outputs(old_outputs, old_children, path),
            path,
            chain,
        )
}

/// The output names of a built path, innermost derivation first.
pub open spec fn output_chain(b: SingleDerivedPathBuilt) -> Seq<Seq<char>>
    decreases b,
{
    match *b.derived_path {
        SingleDerivedPath::Opaque(_) => seq![b.output@],
        SingleDerivedPath::Built(inner) => output_chain(inner).push(b.output@),
    }
}

fn collect_chain(built: &SingleDerivedPathBuilt) -> (r: Vec<String>)
    ensures
        strings_view(r@) == output_chain(*built),
    decreases built,
{
    match &*built.derived_path {
        SingleDerivedPath::Opaque(_) => {
            let mut r: Vec<String> = Vec::new();
            r.push(built.output.clone());
            assert(strings_view(r@) =~= seq![built.output@]);
            r
        },
        SingleDerivedPath::Built(inner) => {
            let mut r = collect_chain(inner);
            r.push(built.output.clone());
            proof {
                assert(strings_view(r@) =~= output_chain(*inner).push(built.output@));
            }
            r
        },
    }
}

proof fn lemma_node_outputs_children(
    outputs1: Seq<String>,
    outputs2: Seq<String>,
    children: Map<Seq<char>, DynamicOutput>,
    path: Seq<Seq<char>>,
)
    requires
        path.len() > 0,
    ensures
        node_outputs(outputs1, children, path) == node_outputs(outputs2, children, path),
{
}

fn add_chain(
    outputs: &mut Vec<String>,
    dynamic_outputs: &mut DynamicOutputs,
    chain: &Vec<String>,
    level: usize,
)
    requires
        level < chain@.len(),
    ensures
        chain_added(
            old(outputs)@,
            old(dynamic_outputs)@,
            final(outputs)@,
            final(dynamic_outputs)@,
            strings_view(chain@).skip(level as int),
        ),
    decreases chain@.len() - level,
{
    let ghost c = strings_view(chain@).skip(level as int);
    let ghost old_outputs = outputs@;
    let ghost old_children = dynamic_outputs@;
    if chain.len() - level == 1 {
        let final_output = &chain[level];
        if !strings_contain(outputs, final_output.as_str()) {
            outputs.push(final_output.clone());
        }
        proof {
            assert(c.drop_last() =~= Seq::<Seq<char>>::empty());
            assert(c.last() == final_output@);
            assert(strings_view(outputs@) =~= add_unique(strings_view(old_outputs), c.last()));
            assert forall|path: Seq<Seq<char>>| #[trigger]
                node_outputs(outputs@, dynamic_outputs@, path) == outputs_after_add(
                    node_outputs(old_outputs, old_children, path),
                    path,
                    c,
                ) by {
                if path.len() == 0 {
                    assert(c.drop_last().take(0) =~= path);
                } else {
                    lemma_node_outputs_children(outputs@, old_outputs, old_children, path);
                }
            }
        }
    } else {
        let key = &chain[level];
        let ghost k = key@;
        let ghost c2 = strings_view(chain@).skip(level + 1);
        let mut node = match dynamic_outputs.remove(key.as_str()) {
            Some(n) => n,
            None => DynamicOutput { outputs: Vec::new(), dynamic_outputs: DynamicOutputs::new() },
        };
        let ghost node_old = node;
        add_chain(&mut node.outputs, &mut node.dynamic_outputs, chain, level + 1);
        dynamic_outputs.insert(key.clone(), node);
        proof {
            let new_children = dynamic_outputs@;
            assert(new_children =~= old_children.remove(k).insert(k, node));
            assert(c[0] == k);
            assert(c2 =~= c.drop_first());
            assert(c.last() == c2.last());
            assert(c.drop_last() =~= seq![k] + c2.drop_last());
            assert forall|path: Seq<Seq<char>>| #[trigger]
                node_outputs(outputs@, new_children, path) == outputs_after_add(
                    node_outputs(old_outputs, old_children, path),
                    path,
                    c,
                ) by {
                if path.len() == 0 {
                    assert(c.drop_last().take(0) =~= path);
                } else if path[0] == k {
                    let q = path.drop_first();
                    assert(node_outputs(outputs@, new_children, path) == node_outputs(
                        node.outputs@,
                        node.dynamic_outputs@,
                        q,
                    ));
                    assert(node_outputs(node.outputs@, node.dynamic_outputs@, q)
                        == outputs_after_add(
                        node_outputs(node_old.outputs@, node_old.dynamic_outputs@, q),
                        q,
                        c2,
                    ));
                    assert(is_prefix_of(path, c.drop_last()) == is_prefix_of(q, c2.drop_last())) by {
                        if is_prefix_of(q, c2.drop_last()) {
                            assert(c.drop_last().take(path.len() as int) =~= seq![k]
                                + c2.drop_last().take(q.len() as int));
                            assert(path =~= seq![k] + q);
                        }
                        if is_prefix_of(path, c.drop_last()) {
                            assert(c2.drop_last().take(q.len() as int) =~= c.drop_last().take(
                                path.len() as int,
                            ).drop_first());
                        }
                    }
                    if q.len() == 0 {
                        assert(c2.drop_last().take(0) =~= q);
                    }
                    if !old_children.contains_key(k) {
                        assert(strings_view(node_old.outputs@) =~= Seq::<Seq<char>>::empty());
                        if q.len() > 0 {
                            assert(!node_old.dynamic_outputs@.contains_key(q[0]));
                        }
                        assert(node_outputs(old_outputs, old_children, path) is None);
                        assert(is_prefix_of(path, c.drop_last()) ==> outputs_after_add(
                            node_outputs(node_old.outputs@, node_old.dynamic_outputs@, q),
                            q,
                            c2,
                        ) == outputs_after_add(None, path, c));
                    } else {
                        assert(node_old == old_children[k]);
                        assert(node_outputs(old_outputs, old_children, path) == node_outputs(
                            node_old.outputs@,
                            node_old.dynamic_outputs@,
                            q,
                        ));
                    }
                } else {
                    assert(new_children.contains_key(path[0]) == old_children.contains_key(
                        path[0],
                    ));
                    if old_children.contains_key(path[0]) {
                        assert(new_children[path[0]] == old_children[path[0]]);
                    }
                    assert(node_outputs(outputs@, new_children, path) == node_outputs(
                        old_outputs,
                        old_children,
                        path,
                    ));
                    assert(c.drop_last()[0] == k);
                    assert(!is_prefix_of(path, c.drop_last())) by {
                        if is_prefix_of(path, c.drop_last()) {
                            assert(c.drop_last().take(path.len() as int)[0] == path[0]);
                        }
                    }
                }
            }
        }
    }
}

/// The input derivation stored under `key` has outputs `node_outputs(.., path)`
/// at `path`; `None` when there is no such input derivation.
pub open spec fn drv_node_outputs(
    drvs: Map<Seq<char>, InputDrv>,
    key: Seq<char>,
    path: Seq<Seq<char>>,
) -> Option<Seq<Seq<char>>> {
    if drvs.contains_key(key) {
        node_outputs(drvs[key].outputs@, drvs[key].dynamic_outputs@, path)
    } else {
        None
    }
}

/// `b` is `a` with the built path `built` added as an input: the input
/// derivation at the root of `built` (by full store path) records the chain
/// of outputs of `built`.
pub open spec fn input_built_added(a: Derivation, b: Derivation, built: SingleDerivedPathBuilt) -> bool {
    let key = base_store_path(*built.derived_path)@;
    &&& same_but_drvs(b, a)
    &&& b.inputs.drvs@.contains_key(key)
    &&& b.inputs.drvs@.remove(key) == a.inputs.drvs@.remove(key)
    &&& forall|path: Seq<Seq<char>>| #[trigger]
        drv_node_outputs(b.inputs.drvs@, key, path) == outputs_after_add(
            drv_node_outputs(a.inputs.drvs@, key, path),
            path,
            output_chain(built),
        )
}

impl Derivation {
    /// Set the path of an existing output (given as a full store path or a
    /// base name; the base name is stored). Does nothing when there is no
    /// output `name`.
    pub fn set_output_path(&mut self, name: &str, path: &str) -> (r: &mut Self)
        ensures
            output_path_set(old(self).outputs@, r.outputs@, name@, path@),
            same_but_outputs(*r, *old(self)),
            *final(self) == *final(r),
    {
        match self.outputs.remove(name) {
            Some(output) => {
                let updated = Output {
                    path: Some(store_path_base_name_from_str(path)),
                    hash_algo: output.hash_algo,
                    method: output.method,
                    hash: output.hash,
                };
                self.outputs.insert(String::from_str(name), updated);
                proof {
                    assert(self.outputs@.remove(name@) =~= old(self).outputs@.remove(name@));
                }
            },
            None => {
                proof {
                    assert(self.outputs@ =~= old(self).outputs@);
                }
            },
        }
        self
    }

    /// Add an input source (recorded by its full store path).
    pub fn add_input_src(&mut self, store_path: &StorePath) -> (r: &mut Self)
        ensures
            r.inputs.srcs@ == old(self).inputs.srcs@.insert(store_path@),
            same_but_srcs(*r, *old(self)),
            *final(self) == *final(r),
    {
        self.inputs.srcs.insert(store_path.to_string());
        self
    }

    /// Add a derived path as input: a store path becomes an input source, a
    /// built path an output of an input derivation.
    pub fn add_derived_path(&mut self, derived_path: &SingleDerivedPath) -> (r: &mut Self)
        ensures
            derived_path matches SingleDerivedPath::Opaque(store_path) ==> {
                &&& r.inputs.srcs@ == old(self).inputs.srcs@.insert(store_path@)
                &&& same_but_srcs(*r, *old(self))
            },
            derived_path matches SingleDerivedPath::Built(built) ==> input_built_added(
                *old(self),
                *r,
                *built,
            ),
            derived_path_added(*old(self), *r, *derived_path),
            *final(self) == *final(r),
    {
        match derived_path {
            SingleDerivedPath::Opaque(store_path) => {
                self.add_input_src(store_path);
            },
            SingleDerivedPath::Built(built) => {
                self.add_input_built(built);
            },
        }
        self
    }

    /// Add a built derivation path as an input to this derivation.
    fn add_input_built(&mut self, built: &SingleDerivedPathBuilt)
        ensures
            input_built_added(*old(self), *final(self), *built),
    {
        let drv_store_path = built.derived_path.store_path().to_string();
        let ghost key = drv_store_path@;
        let ghost old_drvs = self.inputs.drvs@;
        let mut input_drv = match self.inputs.drvs.remove(drv_store_path.as_str()) {
            Some(d) => d,
            None => InputDrv { outputs: Vec::new(), dynamic_outputs: DynamicOutputs::new() },
        };
        let ghost node_old = input_drv;
        Self::add_built_nested(&mut input_drv.outputs, &mut input_drv.dynamic_outputs, built);
        self.inputs.drvs.insert(drv_store_path, input_drv);
        proof {
            let new_drvs = self.inputs.drvs@;
            assert(new_drvs.remove(key) =~= old_drvs.remove(key));
            assert forall|path: Seq<Seq<char>>| #[trigger]
                drv_node_outputs(new_drvs, key, path) == outputs_after_add(
                    drv_node_outputs(old_drvs, key, path),
                    path,
                    output_chain(*built),
                ) by {
                assert(node_outputs(input_drv.outputs@, input_drv.dynamic_outputs@, path)
                    == outputs_after_add(
                    node_outputs(node_old.outputs@, node_old.dynamic_outputs@, path),
                    path,
                    output_chain(*built),
                ));
                if !old_drvs.contains_key(key) {
                    if path.len() == 0 {
                        assert(strings_view(node_old.outputs@) =~= Seq::<Seq<char>>::empty());
                        assert(output_chain(*built).drop_last().take(0) =~= path);
                    } else {
                        assert(!node_old.dynamic_outputs@.contains_key(path[0]));
                    }
                }
            }
        }
    }

    /// Add a built path with a potentially nested dynamic derivation structure:
    /// every intermediate output level becomes a dynamic output node, and the
    /// final output is added to the innermost one unless already present.
    fn add_built_nested(
        outputs: &mut Vec<String>,
        dynamic_outputs: &mut DynamicOutputs,
        built: &SingleDerivedPathBuilt,
    )
        ensures
            chain_added(
                old(outputs)@,
                old(dynamic_outputs)@,
                final(outputs)@,
                final(dynamic_outputs)@,
                output_chain(*built),
            ),
    {
        let chain = collect_chain(built);
        proof {
            lemma_output_chain_nonempty(*built);
            assert(strings_view(chain@).skip(0) =~= strings_view(chain@));
        }
        add_chain(outputs, dynamic_outputs, &chain, 0);
    }
}

proof fn lemma_output_chain_nonempty(b: SingleDerivedPathBuilt)
    ensures
        output_chain(b).len() > 0,
    decreases b,
{
    match *b.derived_path {
        SingleDerivedPath::Opaque(_) => {},
        SingleDerivedPath::Built(inner) => lemma_output_chain_nonempty(inner),
    }
}

/// `b` is `a` with the derived path `p` added as an input (what
/// `Derivation::add_derived_path` does).
pub open spec fn derived_path_added(a: Derivation, b: Derivation, p: SingleDerivedPath) -> bool {
    match p {
        SingleDerivedPath::Opaque(store_path) => b.inputs.srcs@ == a.inputs.srcs@.insert(store_path@)
            && same_but_srcs(b, a),
        SingleDerivedPath::Built(built) => input_built_added(a, b, built),
    }
}


proof fn lemma_outputs_after_add_twice(
    before: Option<Seq<Seq<char>>>,
    path: Seq<Seq<char>>,
    chain: Seq<Seq<char>>,
)
    ensures
        outputs_after_add(
            outputs_after_add(before, path, chain),
            path,
            chain,
        ) == outputs_after_add(before, path, chain),
{
    let once = outputs_after_add(before, path, chain);
    if is_prefix_of(path, chain.drop_last()) && path.len() == chain.drop_last().len() {
        let base = match before {
            Some(o) => o,
            None => Seq::<Seq<char>>::empty(),
        };
        let x = chain.last();
        if !base.contains(x) {
            assert(base.push(x)[base.len() as int] == x);
            assert(base.push(x).contains(x));
        }
    }
}

/// Adding a derived path that was just added changes nothing more: the
/// input sources, and the outputs recorded for every input derivation, stay
/// the same.
pub proof fn lemma_derived_path_added_twice(
    a: Derivation,
    b: Derivation,
    c: Derivation,
    p: SingleDerivedPath,
)
    requires
        derived_path_added(a, b, p),
        derived_path_added(b, c, p),
    ensures
        c.version == b.version && c.name == b.name && c.system == b.system && c.builder == b.builder,
        c.args@ == b.args@ && c.env@ == b.env@ && c.outputs@ == b.outputs@,
        c.inputs.srcs@ == b.inputs.srcs@,
        c.inputs.drvs@.dom() == b.inputs.drvs@.dom(),
        forall|key: Seq<char>, path: Seq<Seq<char>>| #[trigger]
            drv_node_outputs(c.inputs.drvs@, key, path)
                == drv_node_outputs(b.inputs.drvs@, key, path),
{
    match p {
        SingleDerivedPath::Opaque(sp) => {
            assert(c.inputs.srcs@ =~= b.inputs.srcs@);
        },
        SingleDerivedPath::Built(built) => {
            let key = crate::derived_path::base_store_path(*built.derived_path)@;
            assert forall|k: Seq<char>, path: Seq<Seq<char>>| #[trigger]
                drv_node_outputs(c.inputs.drvs@, k, path)
                    == drv_node_outputs(b.inputs.drvs@, k, path) by {
                if k == key {
                    let before = drv_node_outputs(a.inputs.drvs@, key, path);
                    let chain = output_chain(built);
                    assert(drv_node_outputs(b.inputs.drvs@, key, path)
                        == outputs_after_add(before, path, chain));
                    assert(drv_node_outputs(c.inputs.drvs@, key, path)
                        == outputs_after_add(
                        drv_node_outputs(b.inputs.drvs@, key, path),
                        path,
                        chain,
                    ));
                    lemma_outputs_after_add_twice(before, path, chain);
                } else {
                    assert(c.inputs.drvs@.remove(key).contains_key(k) == b.inputs.drvs@.remove(key).contains_key(k));
                    if c.inputs.drvs@.contains_key(k) {
                        assert(c.inputs.drvs@[k] == c.inputs.drvs@.remove(key)[k]);
                        assert(b.inputs.drvs@[k] == b.inputs.drvs@.remove(key)[k]);
                    }
                }
            }
            assert(c.inputs.drvs@.dom() =~= b.inputs.drvs@.dom()) by {
                assert forall|k: Seq<char>| c.inputs.drvs@.dom().contains(k) == b.inputs.drvs@.dom().contains(k) by {
                    if k != key {
                        assert(c.inputs.drvs@.remove(key).contains_key(k) == b.inputs.drvs@.remove(key).contains_key(k));
                    }
                }
            }
        },
    }
}

/// No node of an input derivation lists an output twice.
pub open spec fn outputs_distinct(drvs: Map<Seq<char>, InputDrv>) -> bool {
    forall|key: Seq<char>, path: Seq<Seq<char>>|
        (#[trigger] drv_node_outputs(drvs, key, path)) is Some
            ==> drv_node_outputs(drvs, key, path).unwrap().no_duplicates()
}

/// Adding a derived path never lists an output twice at a node of an input
/// derivation that did not list one twice before.
pub proof fn lemma_derived_path_added_keeps_distinct(a: Derivation, b: Derivation, p: SingleDerivedPath)
    requires
        derived_path_added(a, b, p),
        outputs_distinct(a.inputs.drvs@),
    ensures
        outputs_distinct(b.inputs.drvs@),
{
    match p {
        SingleDerivedPath::Opaque(sp) => {},
        SingleDerivedPath::Built(built) => {
            let key = crate::derived_path::base_store_path(*built.derived_path)@;
            let chain = output_chain(built);
            assert forall|k: Seq<char>, path: Seq<Seq<char>>|
                (#[trigger] drv_node_outputs(b.inputs.drvs@, k, path)) is Some
                    implies drv_node_outputs(b.inputs.drvs@, k, path).unwrap().no_duplicates() by {
                if k == key {
                    let before = drv_node_outputs(a.inputs.drvs@, key, path);
                    assert(drv_node_outputs(b.inputs.drvs@, key, path)
                        == outputs_after_add(before, path, chain));
                    let base = match before {
                        Some(o) => o,
                        None => Seq::<Seq<char>>::empty(),
                    };
                    if before is Some {
                        assert(drv_node_outputs(a.inputs.drvs@, key, path) is Some);
                    }
                    assert(base.no_duplicates());
                    let x = chain.last();
                    if !base.contains(x) {
                        assert(base.push(x).no_duplicates()) by {
                            assert forall|i: int, j: int|
                                0 <= i < base.push(x).len() && 0 <= j < base.push(x).len() && i != j implies base.push(
                                    x,
                                )[i] != base.push(x)[j] by {
                                if i < base.len() && j < base.len() {
                                } else if i < base.len() {
                                    assert(base.contains(base[i]));
                                } else {
                                    assert(base.contains(base[j]));
                                }
                            }
                        }
                    }
                } else {
                    assert(b.inputs.drvs@.remove(key).contains_key(k) == a.inputs.drvs@.remove(key).contains_key(k));
                    if b.inputs.drvs@.contains_key(k) {
                        assert(b.inputs.drvs@[k] == b.inputs.drvs@.remove(key)[k]);
                        assert(a.inputs.drvs@[k] == a.inputs.drvs@.remove(key)[k]);
                    }
                    assert(drv_node_outputs(b.inputs.drvs@, k, path)
                        == drv_node_outputs(a.inputs.drvs@, k, path));
                }
            }
        },
    }
}


/// What adding a derived path does, as a whole: a store path changes only
/// the input sources and a built path only the input derivations; no other
/// field changes; output lists without repeats stay without repeats; and
/// adding the same path once more changes nothing: the input sources, the
/// input derivations present, and the outputs recorded at every node of
/// each of them stay the same.
pub proof fn lemma_add_derived_path(d0: Derivation, d1: Derivation, d2: Derivation, p: SingleDerivedPath)
    requires
        derived_path_added(d0, d1, p),
        derived_path_added(d1, d2, p),
        outputs_distinct(d0.inputs.drvs@),
    ensures
        d1.version == d0.version && d1.name == d0.name && d1.system == d0.system && d1.builder == d0.builder,
        d1.args@ == d0.args@ && d1.env@ == d0.env@ && d1.outputs@ == d0.outputs@,
        p is Opaque ==> d1.inputs.drvs@ == d0.inputs.drvs@,
        p is Built ==> d1.inputs.srcs@ == d0.inputs.srcs@,
        outputs_distinct(d1.inputs.drvs@),
        outputs_distinct(d2.inputs.drvs@),
        d2.version == d1.version && d2.name == d1.name && d2.system == d1.system && d2.builder == d1.builder,
        d2.args@ == d1.args@ && d2.env@ == d1.env@ && d2.outputs@ == d1.outputs@,
        d2.inputs.srcs@ == d1.inputs.srcs@,
        d2.inputs.drvs@.dom() == d1.inputs.drvs@.dom(),
        forall|key: Seq<char>, path: Seq<Seq<char>>| #[trigger]
            drv_node_outputs(d2.inputs.drvs@, key, path) == drv_node_outputs(d1.inputs.drvs@, key, path),
{
    lemma_derived_path_added_keeps_distinct(d0, d1, p);
    lemma_derived_path_added_keeps_distinct(d1, d2, p);
    lemma_derived_path_added_twice(d0, d1, d2, p);
}

} // verus!
