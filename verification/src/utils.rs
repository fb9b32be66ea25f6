use vstd::prelude::*;

use crate::outside::{json_section_keys, section_keys};
use crate::text::text_eq;

verus! {

/// What the scanner read in one directory: the names of its entries and, when
/// it could be read, the text of its `package.json`.
#[derive(Debug)]
pub struct DirSnapshot {
    /// Names of the entries that are not directories.
    pub file_names: Vec<String>,
    /// Names of the entries that are directories.
    pub dir_names: Vec<String>,
    /// The contents of `package.json` in this directory, if it could be read.
    pub package_json: Option<String>,
}

/// How a kind of project finds its candidate target directories.
#[derive(Debug, Clone, Copy, PartialEq, Eq, Structural)]
pub enum TargetRule {
    /// Always `target`.
    Cargo,
    /// `node_modules`, then the caches of the frameworks that `package.json`
    /// depends on.
    Npm,
}

/// A kind of project the scanner can detect. Add new entries to
/// [`project_kinds`] to support more ecosystems (flutter, gradle, etc.).
#[derive(Debug)]
pub struct ProjectKind {
    /// Short name shown to the user, e.g. "cargo", "npm".
    pub name: &'static str,
    /// File at the project root that identifies this kind.
    pub identifier: &'static str,
    /// How the candidate target directory names (relative to the project
    /// root) are found for this kind. Applied once per detected project; it
    /// may look at what was read at the project root (e.g. package.json).
    pub targets: TargetRule,
}

impl ProjectKind {
    /// The kind as plain values: name, identifier and target rule.
    pub open spec fn spec(self) -> (Seq<char>, Seq<char>, TargetRule) {
        (self.name@, self.identifier@, self.targets)
    }

    /// The candidate target directory names of this kind for a project root.
    pub fn candidate_targets(&self, root: &DirSnapshot) -> (r: Vec<&'static str>)
        ensures
            r.deep_view() == rule_targets(self.targets, *root),
    {
        match self.targets {
            TargetRule::Cargo => cargo_targets(root),
            TargetRule::Npm => npm_targets(root),
        }
    }
}

/// The registered kinds, in the order in which they are tried.
pub open spec fn kinds_spec() -> Seq<(Seq<char>, Seq<char>, TargetRule)> {
    seq![
        ("cargo"@, "Cargo.toml"@, TargetRule::Cargo),
        ("npm"@, "package.json"@, TargetRule::Npm),
    ]
}

/// The registered kinds of project.
pub fn project_kinds() -> (r: Vec<ProjectKind>)
    ensures
        r.len() == kinds_spec().len(),
        forall|i: int| 0 <= i < r.len() ==> #[trigger] r@[i].spec() == kinds_spec()[i],
{
    let r = vec![
        ProjectKind { name: "cargo", identifier: "Cargo.toml", targets: TargetRule::Cargo },
        ProjectKind { name: "npm", identifier: "package.json", targets: TargetRule::Npm },
    ];
    assert(r@[0].spec() == kinds_spec()[0]);
    assert(r@[1].spec() == kinds_spec()[1]);
    r
}

/// Appends `x` unless it is already present.
pub open spec fn push_unique(s: Seq<Seq<char>>, x: Seq<char>) -> Seq<Seq<char>> {
    if s.contains(x) {
        s
    } else {
        s.push(x)
    }
}

/// Appends each of `xs` in turn, skipping those already present.
pub open spec fn extend_unique(s: Seq<Seq<char>>, xs: Seq<Seq<char>>) -> Seq<Seq<char>>
    decreases xs.len(),
{
    if xs.len() == 0 {
        s
    } else {
        push_unique(extend_unique(s, xs.drop_last()), xs.last())
    }
}

/// Maps an npm dependency name to the cache directories it produces.
pub open spec fn framework_map() -> Seq<(Seq<char>, Seq<Seq<char>>)> {
    seq![
        ("next"@, seq![".next"@]),
        ("nuxt"@, seq![".nuxt"@, ".output"@]),
        ("nuxt3"@, seq![".nuxt"@, ".output"@]),
        ("@sveltejs/kit"@, seq![".svelte-kit"@]),
    ]
}

/// The directories of the entries of `map` whose dependency is among `keys`,
/// in the order of `map`.
pub open spec fn dirs_for_keys(
    map: Seq<(Seq<char>, Seq<Seq<char>>)>,
    keys: Seq<Seq<char>>,
) -> Seq<Seq<char>>
    decreases map.len(),
{
    if map.len() == 0 {
        Seq::empty()
    } else {
        dirs_for_keys(map.drop_last(), keys) + if keys.contains(map.last().0) {
            map.last().1
        } else {
            Seq::empty()
        }
    }
}

/// The framework directories named by one dependency section, if it exists.
pub open spec fn section_dirs(keys: Option<Seq<Seq<char>>>) -> Seq<Seq<char>> {
    match keys {
        Some(k) => dirs_for_keys(framework_map(), k),
        None => Seq::empty(),
    }
}

/// The framework cache directories that a `package.json` text asks for:
/// those of `dependencies`, then those of `devDependencies`, each once.
pub open spec fn framework_targets_of(text: Seq<char>) -> Seq<Seq<char>> {
    extend_unique(
        extend_unique(Seq::empty(), section_dirs(json_section_keys(text, "dependencies"@))),
        section_dirs(json_section_keys(text, "devDependencies"@)),
    )
}

/// The framework cache directories for a `package.json` that may be missing.
pub open spec fn framework_targets_spec(package_json: Option<Seq<char>>) -> Seq<Seq<char>> {
    match package_json {
        Some(text) => framework_targets_of(text),
        None => Seq::empty(),
    }
}

/// The text of a snapshot's `package.json`, if it was read.
pub open spec fn package_text(root: DirSnapshot) -> Option<Seq<char>> {
    match root.package_json {
        Some(t) => Some(t@),
        None => None,
    }
}

/// The candidate target directories of an npm project.
pub open spec fn npm_targets_spec(root: DirSnapshot) -> Seq<Seq<char>> {
    seq!["node_modules"@] + framework_targets_spec(package_text(root))
}

/// The candidate target directories that a target rule gives for a project root.
pub open spec fn rule_targets(rule: TargetRule, root: DirSnapshot) -> Seq<Seq<char>> {
    match rule {
        TargetRule::Cargo => seq!["target"@],
        TargetRule::Npm => npm_targets_spec(root),
    }
}

/// Appending one list after another, skipping what is present, is the same
/// as appending their concatenation.
pub proof fn lemma_extend_unique_append(s: Seq<Seq<char>>, a: Seq<Seq<char>>, b: Seq<Seq<char>>)
    ensures
        extend_unique(extend_unique(s, a), b) == extend_unique(s, a + b),
    decreases b.len(),
{
    if b.len() == 0 {
        assert(a + b =~= a);
    } else {
        lemma_extend_unique_append(s, a, b.drop_last());
        assert((a + b).drop_last() =~= a + b.drop_last());
        assert((a + b).last() == b.last());
    }
}

/// Whether `x` is among the texts in `v`.
pub fn contains_text(v: &Vec<&'static str>, x: &str) -> (r: bool)
    ensures
        r == v.deep_view().contains(x@),
{
    let mut i: usize = 0;
    while i < v.len()
        invariant
            i <= v.len(),
            forall|j: int| 0 <= j < i ==> v.deep_view()[j] != x@,
        decreases v.len() - i,
    {
        if text_eq(v[i], x) {
            assert(v.deep_view()[i as int] == x@);
            return true;
        }
        i = i + 1;
    }
    false
}

/// Whether `x` is among the strings in `v`.
pub fn contains_string(v: &Vec<String>, x: &str) -> (r: bool)
    ensures
        r == v.deep_view().contains(x@),
{
    let mut i: usize = 0;
    while i < v.len()
        invariant
            i <= v.len(),
            forall|j: int| 0 <= j < i ==> v.deep_view()[j] != x@,
        decreases v.len() - i,
    {
        if text_eq(v[i].as_str(), x) {
            assert(v.deep_view()[i as int] == x@);
            return true;
        }
        i = i + 1;
    }
    false
}

/// Appends `x` to `v` unless it is already there.
pub fn push_unique_text(v: &mut Vec<&'static str>, x: &'static str)
    ensures
        final(v).deep_view() == push_unique(old(v).deep_view(), x@),
{
    if !contains_text(v, x) {
        let ghost before = v.deep_view();
        v.push(x);
        assert(v.deep_view() =~= before.push(x@));
    }
}

/// Appends each of `xs` to `v` in turn, skipping those already present.
pub fn extend_unique_text(v: &mut Vec<&'static str>, xs: &Vec<&'static str>)
    ensures
        final(v).deep_view() == extend_unique(old(v).deep_view(), xs.deep_view()),
{
    let ghost start = v.deep_view();
    let mut i: usize = 0;
    while i < xs.len()
        invariant
            i <= xs.len(),
            v.deep_view() == extend_unique(start, xs.deep_view().take(i as int)),
        decreases xs.len() - i,
    {
        push_unique_text(v, xs[i]);
        proof {
            let next = xs.deep_view().take(i + 1);
            assert(next.drop_last() =~= xs.deep_view().take(i as int));
            assert(next.last() == xs.deep_view()[i as int]);
        }
        i = i + 1;
    }
    assert(xs.deep_view().take(xs.len() as int) =~= xs.deep_view());
}



/// The candidate target directories of a Cargo project.
pub fn cargo_targets(_root: &DirSnapshot) -> (r: Vec<&'static str>)
    ensures
        r.deep_view() == seq!["target"@],
{
    let r = vec!["target"];
    assert(r.deep_view() =~= seq!["target"@]);
    r
}

/// Maps an npm dependency name to one or more cache directories it produces.
pub fn npm_framework_map() -> (m: Vec<(&'static str, Vec<&'static str>)>)
    ensures
        m.deep_view() == framework_map(),
{
    let m = vec![
        ("next", vec![".next"]),
        ("nuxt", vec![".nuxt", ".output"]),
        ("nuxt3", vec![".nuxt", ".output"]),
        ("@sveltejs/kit", vec![".svelte-kit"]),
    ];
    assert(m.deep_view()[0].1 =~= framework_map()[0].1);
    assert(m.deep_view()[1].1 =~= framework_map()[1].1);
    assert(m.deep_view()[2].1 =~= framework_map()[2].1);
    assert(m.deep_view()[3].1 =~= framework_map()[3].1);
    assert(m.deep_view() =~= framework_map());
    m
}

/// Appends to `out`, each once, the cache directories of the frameworks
/// among `dependency_names` (the keys of one dependency section).
pub fn add_framework_targets(out: &mut Vec<&'static str>, dependency_names: &Vec<String>)
    ensures
        final(out).deep_view() == extend_unique(
            old(out).deep_view(),
            dirs_for_keys(framework_map(), dependency_names.deep_view()),
        ),
{
    let ghost start = out.deep_view();
    let ghost keys = dependency_names.deep_view();
    let map = npm_framework_map();
    let mut k: usize = 0;
    while k < map.len()
        invariant
            k <= map.len(),
            map.deep_view() == framework_map(),
            keys == dependency_names.deep_view(),
            out.deep_view() == extend_unique(start, dirs_for_keys(map.deep_view().take(k as int), keys)),
        decreases map.len() - k,
    {
        let ghost prefix = map.deep_view().take(k as int);
        let ghost next = map.deep_view().take(k + 1);
        proof {
            assert(next.drop_last() =~= prefix);
            assert(next.last() == map.deep_view()[k as int]);
        }
        let (dep, dirs) = &map[k];
        assert(dep@ == map.deep_view()[k as int].0);
        assert(dirs.deep_view() == map.deep_view()[k as int].1);
        if contains_string(dependency_names, dep) {
            extend_unique_text(out, dirs);
            proof {
                lemma_extend_unique_append(start, dirs_for_keys(prefix, keys), dirs.deep_view());
            }
        } else {
            assert(dirs_for_keys(next, keys) =~= dirs_for_keys(prefix, keys));
        }
        k = k + 1;
    }
    assert(map.deep_view().take(map.len() as int) =~= map.deep_view());
}

/// The framework cache directories named in the text of a `package.json`
/// (`None` when it could not be read): those of `dependencies`, then those
/// of `devDependencies`, each once. Text that is not JSON names none.
pub fn npm_framework_targets(package_json: Option<&str>) -> (r: Vec<&'static str>)
    ensures
        r.deep_view() == framework_targets_spec(
            match package_json {
                Some(t) => Some(t@),
                None => None,
            },
        ),
{
    let mut out: Vec<&'static str> = Vec::new();
    assert(out.deep_view() =~= Seq::<Seq<char>>::empty());
    let text = match package_json {
        Some(t) => t,
        None => return out,
    };
    let sections = ["dependencies", "devDependencies"];
    proof {
        reveal_strlit("dependencies");
        reveal_strlit("devDependencies");
    }
    let deps = section_keys(text, sections[0]);
    if let Some(names) = &deps {
        add_framework_targets(&mut out, names);
    }
    assert(out.deep_view() == extend_unique(Seq::empty(), section_dirs(json_section_keys(text@, "dependencies"@))));
    let dev = section_keys(text, sections[1]);
    if let Some(names) = &dev {
        add_framework_targets(&mut out, names);
    }
    out
}

/// The candidate target directories of an npm project: always
/// `node_modules`, then the framework caches its `package.json` names.
pub fn npm_targets(root: &DirSnapshot) -> (r: Vec<&'static str>)
    ensures
        r.deep_view() == npm_targets_spec(*root),
        r.deep_view() == seq!["node_modules"@] + framework_targets_spec(package_text(*root)),
{
    let mut dirs = vec!["node_modules"];
    let text: Option<&str> = match &root.package_json {
        Some(t) => Some(t.as_str()),
        None => None,
    };
    let mut frameworks = npm_framework_targets(text);
    let ghost d0 = dirs.deep_view();
    let ghost f0 = frameworks.deep_view();
    dirs.append(&mut frameworks);
    assert(dirs.deep_view() =~= d0 + f0);
    assert(d0 =~= seq!["node_modules"@]);
    dirs
}

} // verus!
