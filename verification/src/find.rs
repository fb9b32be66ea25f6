use vstd::prelude::*;

use crate::outside::{available_cpus, bytefmt_format, format_bytes};
use crate::text::{join_texts, joined, text_eq};
use crate::utils::{
    contains_string, contains_text, extend_unique, extend_unique_text, kinds_spec, project_kinds,
    push_unique, push_unique_text, rule_targets, DirSnapshot, TargetRule,
};
use crate::tree::{clamp_u64, newest_in, newest_mtime, sum_bytes, total_bytes, FsNode};

verus! {

/// Per-project analysis result.
#[derive(Debug)]
pub struct ProjectTargetAnalysis {
    /// Path of the project root, as it is shown to the user.
    pub project_path: String,
    /// Detector names that matched (e.g. `["cargo"]`, `["npm"]`,
    /// `["cargo", "npm"]`, or `["git"]` for a `.git`-only directory).
    pub kinds: Vec<&'static str>,
    /// Target directory names (relative to `project_path`) that exist and
    /// were included in the analysis.
    pub targets: Vec<&'static str>,
    /// Sum of bytes across all `targets`, saturated at `u64::MAX`.
    pub size: u64,
    /// Newest mtime seen across all `targets`, in nanoseconds after the Unix
    /// epoch (0 when nothing newer than the epoch was seen).
    pub last_modified: u128,
}

impl ProjectTargetAnalysis {
    /// Recursively measure size and newest mtime of a scanned tree, treating
    /// unreadable entries as empty subtrees. Symbolic links count for nothing.
    pub fn recursive_scan_target(node: &FsNode) -> (r: (u64, u128))
        ensures
            r.0 == clamp_u64(total_bytes(*node)),
            r.1 as nat == newest_mtime(*node),
        decreases node,
    {
        match node {
            FsNode::Unreadable => (0, 0),
            FsNode::Symlink => (0, 0),
            FsNode::File { len, modified } => (*len, *modified),
            FsNode::Dir { children } => {
                let mut size: u64 = 0;
                let mut newest: u128 = 0;
                let mut i: usize = 0;
                while i < children.len()
                    invariant
                        i <= children.len(),
                        *node == (FsNode::Dir { children: *children }),
                        size == clamp_u64(sum_bytes(children@.take(i as int))),
                        newest as nat == newest_in(children@.take(i as int)),
                    decreases children.len() - i,
                {
                    proof {
                        assert(decreases_to!(*node => node->children));
                        assert(decreases_to!(children@ => children@[i as int]));
                    }
                    let (s, t) = Self::recursive_scan_target(&children[i]);
                    proof {
                        let next = children@.take(i + 1);
                        assert(next.drop_last() =~= children@.take(i as int));
                        assert(next.last() == children@[i as int]);
                    }
                    size = size.saturating_add(s);
                    if newest < t {
                        newest = t;
                    }
                    i = i + 1;
                }
                proof {
                    assert(children@.take(children@.len() as int) =~= children@);
                }
                (size, newest)
            },
        }
    }
}

/// The trees scanned for the targets of a project, in target order.
pub open spec fn target_trees(scanned: Seq<(&'static str, FsNode)>) -> Seq<FsNode> {
    scanned.map_values(|p: (&'static str, FsNode)| p.1)
}

/// The names of the targets of a project, in order.
pub open spec fn target_names(scanned: Seq<(&'static str, FsNode)>) -> Seq<Seq<char>> {
    scanned.map_values(|p: (&'static str, FsNode)| p.0@)
}

/// The line that describes an analysis: path, kinds, targets and size,
/// separated by a tab and a bar.
pub open spec fn display_text(
    path: Seq<char>,
    kinds: Seq<Seq<char>>,
    targets: Seq<Seq<char>>,
    size: u64,
) -> Seq<char> {
    path + " \t| "@ + joined(kinds, ", "@) + " \t| "@ + joined(targets, ", "@) + " \t| "@
        + bytefmt_format(size)
}

impl ProjectTargetAnalysis {
    /// Builds the analysis of a project from the trees scanned for each of
    /// its targets: the size is the total of the regular files in all of
    /// them (saturated at `u64::MAX`), the newest time the newest among them.
    pub fn analyze(
        project_path: String,
        kinds: Vec<&'static str>,
        scanned: Vec<(&'static str, FsNode)>,
    ) -> (r: Self)
        ensures
            r.project_path == project_path,
            r.kinds == kinds,
            r.targets.deep_view() == target_names(scanned@),
            r.size == clamp_u64(sum_bytes(target_trees(scanned@))),
            r.last_modified as nat == newest_in(target_trees(scanned@)),
    {
        let mut total_size: u64 = 0;
        let mut newest: u128 = 0;
        let mut targets: Vec<&'static str> = Vec::new();
        let mut i: usize = 0;
        while i < scanned.len()
            invariant
                i <= scanned.len(),
                targets.deep_view() == target_names(scanned@.take(i as int)),
                total_size == clamp_u64(sum_bytes(target_trees(scanned@.take(i as int)))),
                newest as nat == newest_in(target_trees(scanned@.take(i as int))),
            decreases scanned.len() - i,
        {
            let ghost next = scanned@.take(i + 1);
            proof {
                assert(target_trees(next).drop_last() =~= target_trees(scanned@.take(i as int)));
                assert(target_trees(next).last() == scanned@[i as int].1);
            }
            let (name, tree) = &scanned[i];
            let (size, time) = Self::recursive_scan_target(tree);
            total_size = total_size.saturating_add(size);
            if newest < time {
                newest = time;
            }
            let ghost before = targets.deep_view();
            targets.push(*name);
            assert(*name == scanned@[i as int].0);
            assert(target_names(next) =~= target_names(scanned@.take(i as int)).push(name@));
            assert(targets.deep_view() =~= before.push(name@));
            i = i + 1;
        }
        proof {
            assert(scanned@.take(scanned.len() as int) =~= scanned@);
        }
        ProjectTargetAnalysis {
            project_path,
            kinds,
            targets,
            size: total_size,
            last_modified: newest,
        }
    }

    /// The line that describes this analysis to the user:
    /// `path \t| kinds \t| targets \t| size`, with kinds and targets separated
    /// by ", " and the size written by `bytefmt`.
    pub fn to_string(&self) -> (s: String)
        ensures
            s@ == display_text(
                self.project_path@,
                self.kinds.deep_view(),
                self.targets.deep_view(),
                self.size,
            ),
    {
        let sep = " \t| ";
        let mut s = self.project_path.clone();
        s.append(sep);
        let kinds = join_texts(&self.kinds, ", ");
        s.append(kinds.as_str());
        s.append(sep);
        let targets = join_texts(&self.targets, ", ");
        s.append(targets.as_str());
        s.append(sep);
        let size = format_bytes(self.size);
        s.append(size.as_str());
        s
    }
}

/// The number of worker threads used for a requested number and the number
/// of CPUs available: at least one, and at most the number of CPUs.
pub open spec fn clamp_threads(requested: nat, cpus: nat) -> nat {
    let wanted = if requested < 1 { 1 } else { requested };
    let limit = if cpus < 1 { 1 } else { cpus };
    if wanted < limit { wanted } else { limit }
}

/// The number of worker threads to use when `requested` are asked for and
/// `cpus` CPUs are available; zero requested threads count as one.
pub fn effective_threads(requested: usize, cpus: usize) -> (n: usize)
    ensures
        n as nat == clamp_threads(requested as nat, cpus as nat),
        1 <= n,
        n <= if cpus < 1 { 1 } else { cpus },
        n <= if requested < 1 { 1 } else { requested },
{
    let wanted = if requested < 1 { 1 } else { requested };
    let limit = if cpus < 1 { 1 } else { cpus };
    if wanted < limit { wanted } else { limit }
}

/// The number of worker threads to use when `requested` are asked for, on
/// this machine: the request (zero counts as one) limited by the number of
/// CPUs that `num_cpus` reports, so at least one and never more than asked.
pub fn thread_count(requested: usize) -> (n: usize)
    ensures
        exists|cpus: usize| n as nat == #[trigger] clamp_threads(requested as nat, cpus as nat),
        1 <= n,
        requested >= 1 ==> n <= requested,
{
    let cpus = available_cpus();
    let n = effective_threads(requested, cpus);
    assert(n as nat == clamp_threads(requested as nat, cpus as nat));
    n
}

/// The names of the kinds in `ks` whose identifier is among `files`, in order.
pub open spec fn matched_names(
    ks: Seq<(Seq<char>, Seq<char>, TargetRule)>,
    files: Seq<Seq<char>>,
) -> Seq<Seq<char>>
    decreases ks.len(),
{
    if ks.len() == 0 {
        Seq::empty()
    } else {
        matched_names(ks.drop_last(), files) + if files.contains(ks.last().1) {
            seq![ks.last().0]
        } else {
            Seq::empty()
        }
    }
}

/// The candidate targets of the kinds in `ks` that match `root`, in order,
/// each once.
pub open spec fn matched_targets(
    ks: Seq<(Seq<char>, Seq<char>, TargetRule)>,
    root: DirSnapshot,
) -> Seq<Seq<char>>
    decreases ks.len(),
{
    if ks.len() == 0 {
        Seq::empty()
    } else if root.file_names.deep_view().contains(ks.last().1) {
        extend_unique(matched_targets(ks.drop_last(), root), rule_targets(ks.last().2, root))
    } else {
        matched_targets(ks.drop_last(), root)
    }
}

/// Whether `.git` counts as a target here: only when asked for and present.
pub open spec fn git_requested(root: DirSnapshot, include_git: bool) -> bool {
    include_git && root.dir_names.deep_view().contains(".git"@)
}

/// The kinds a directory is detected as.
pub open spec fn plan_kinds(root: DirSnapshot, include_git: bool) -> Seq<Seq<char>> {
    matched_names(kinds_spec(), root.file_names.deep_view()) + if git_requested(root, include_git) {
        seq!["git"@]
    } else {
        Seq::empty()
    }
}

/// The candidate target directories of a directory, each once.
pub open spec fn plan_candidates(root: DirSnapshot, include_git: bool) -> Seq<Seq<char>> {
    if git_requested(root, include_git) {
        push_unique(matched_targets(kinds_spec(), root), ".git"@)
    } else {
        matched_targets(kinds_spec(), root)
    }
}

/// The members of `s` that are among `dirs`, in the order of `s`.
pub open spec fn present_in(s: Seq<Seq<char>>, dirs: Seq<Seq<char>>) -> Seq<Seq<char>>
    decreases s.len(),
{
    if s.len() == 0 {
        Seq::empty()
    } else {
        present_in(s.drop_last(), dirs) + if dirs.contains(s.last()) {
            seq![s.last()]
        } else {
            Seq::empty()
        }
    }
}

/// Directory names that are never scanned for projects.
pub open spec fn excluded_dirs() -> Seq<Seq<char>> {
    seq![".git"@, "node_modules"@, ".vscode"@, "src"@]
}

/// Whether the scan continues into a subdirectory with this name.
pub open spec fn descends_into(name: Seq<char>, candidates: Seq<Seq<char>>) -> bool {
    !excluded_dirs().contains(name) && !candidates.contains(name)
}

/// The positions among the first `n` of `dirs` that the scan continues into.
pub open spec fn descend_upto(dirs: Seq<Seq<char>>, candidates: Seq<Seq<char>>, n: nat) -> Seq<int>
    decreases n,
{
    if n == 0 {
        Seq::empty()
    } else {
        descend_upto(dirs, candidates, (n - 1) as nat) + if descends_into(dirs[n - 1], candidates) {
            seq![n - 1]
        } else {
            Seq::empty()
        }
    }
}

/// What the scan does with one directory.
#[derive(Debug)]
pub struct DirPlan {
    /// Detector names that matched, in detector order, then "git".
    pub kinds: Vec<&'static str>,
    /// Every target directory name the matched kinds ask for, each once.
    pub candidate_targets: Vec<&'static str>,
    /// The candidate targets that exist as subdirectories, in candidate order.
    /// The directory is a project exactly when this is not empty.
    pub found_targets: Vec<&'static str>,
    /// Positions in `dir_names` of the subdirectories to scan next, ascending.
    pub descend: Vec<usize>,
}

/// Whether `name` is one of the directory names that are never scanned.
pub fn is_excluded(name: &str) -> (r: bool)
    ensures
        r == excluded_dirs().contains(name@),
        r == (name@ == ".git"@ || name@ == "node_modules"@ || name@ == ".vscode"@ || name@ == "src"@),
{
    proof {
        reveal_strlit(".git");
        reveal_strlit("node_modules");
        reveal_strlit(".vscode");
        reveal_strlit("src");
    }
    let r = text_eq(name, ".git") || text_eq(name, "node_modules") || text_eq(name, ".vscode")
        || text_eq(name, "src");
    proof {
        if excluded_dirs().contains(name@) {
            let k = choose|k: int| 0 <= k < 4 && excluded_dirs()[k] == name@;
            assert(k == 0 || k == 1 || k == 2 || k == 3);
        }
        if r {
            if name@ == ".git"@ { assert(excluded_dirs()[0] == name@); }
            if name@ == "node_modules"@ { assert(excluded_dirs()[1] == name@); }
            if name@ == ".vscode"@ { assert(excluded_dirs()[2] == name@); }
            if name@ == "src"@ { assert(excluded_dirs()[3] == name@); }
        }
    }
    r
}

/// Decides what to do with one directory from what was read in it: which
/// kinds of project it is, which target directories it has, and which
/// subdirectories the scan continues into. A directory can match several
/// kinds; with `include_git`, one that contains `.git` is a project too.
pub fn plan_directory(snapshot: &DirSnapshot, include_git: bool) -> (p: DirPlan)
    ensures
        p.kinds.deep_view() == plan_kinds(*snapshot, include_git),
        p.candidate_targets.deep_view() == plan_candidates(*snapshot, include_git),
        p.found_targets.deep_view() == present_in(
            plan_candidates(*snapshot, include_git),
            snapshot.dir_names.deep_view(),
        ),
        p.descend@.map_values(|i: usize| i as int) == descend_upto(
            snapshot.dir_names.deep_view(),
            plan_candidates(*snapshot, include_git),
            snapshot.dir_names.len() as nat,
        ),
{
    let ghost files = snapshot.file_names.deep_view();
    let ghost dirs = snapshot.dir_names.deep_view();
    let detectors = project_kinds();
    let mut kinds: Vec<&'static str> = Vec::new();
    let mut candidates: Vec<&'static str> = Vec::new();
    let mut i: usize = 0;
    while i < detectors.len()
        invariant
            i <= detectors.len(),
            detectors.len() == kinds_spec().len(),
            forall|j: int| 0 <= j < detectors.len() ==> #[trigger] detectors@[j].spec() == kinds_spec()[j],
            files == snapshot.file_names.deep_view(),
            kinds.deep_view() == matched_names(kinds_spec().take(i as int), files),
            candidates.deep_view() == matched_targets(kinds_spec().take(i as int), *snapshot),
        decreases detectors.len() - i,
    {
        let ghost next = kinds_spec().take(i + 1);
        proof {
            assert(next.drop_last() =~= kinds_spec().take(i as int));
            assert(next.last() == kinds_spec()[i as int]);
            assert(detectors@[i as int].spec() == kinds_spec()[i as int]);
        }
        let kind = &detectors[i];
        if contains_string(&snapshot.file_names, kind.identifier) {
            let ghost before = kinds.deep_view();
            kinds.push(kind.name);
            assert(kinds.deep_view() =~= before.push(kind.name@));
            assert(matched_names(next, files) =~= before + seq![kind.name@]);
            let targets = kind.candidate_targets(snapshot);
            extend_unique_text(&mut candidates, &targets);
        } else {
            assert(matched_names(next, files) =~= matched_names(kinds_spec().take(i as int), files));
        }
        i = i + 1;
    }
    proof {
        assert(kinds_spec().take(kinds_spec().len() as int) =~= kinds_spec());
    }
    let has_git = contains_string(&snapshot.dir_names, ".git");
    if include_git && has_git {
        let ghost before = kinds.deep_view();
        kinds.push("git");
        assert(kinds.deep_view() =~= before.push("git"@));
        push_unique_text(&mut candidates, ".git");
    } else {
        assert(kinds.deep_view() =~= plan_kinds(*snapshot, include_git));
    }

    let mut found: Vec<&'static str> = Vec::new();
    let mut c: usize = 0;
    while c < candidates.len()
        invariant
            c <= candidates.len(),
            dirs == snapshot.dir_names.deep_view(),
            found.deep_view() == present_in(candidates.deep_view().take(c as int), dirs),
        decreases candidates.len() - c,
    {
        let ghost next = candidates.deep_view().take(c + 1);
        proof {
            assert(next.drop_last() =~= candidates.deep_view().take(c as int));
            assert(next.last() == candidates.deep_view()[c as int]);
        }
        let ghost before = found.deep_view();
        if contains_string(&snapshot.dir_names, candidates[c]) {
            found.push(candidates[c]);
            assert(found.deep_view() =~= before + seq![candidates.deep_view()[c as int]]);
        } else {
            assert(present_in(next, dirs) =~= before);
        }
        c = c + 1;
    }
    proof {
        assert(candidates.deep_view().take(candidates.len() as int) =~= candidates.deep_view());
    }

    let mut descend: Vec<usize> = Vec::new();
    let mut d: usize = 0;
    while d < snapshot.dir_names.len()
        invariant
            d <= snapshot.dir_names.len(),
            dirs == snapshot.dir_names.deep_view(),
            descend@.map_values(|i: usize| i as int) == descend_upto(dirs, candidates.deep_view(), d as nat),
        decreases snapshot.dir_names.len() - d,
    {
        let name = snapshot.dir_names[d].as_str();
        assert(name@ == dirs[d as int]);
        let ghost before = descend@.map_values(|i: usize| i as int);
        if !is_excluded(name) && !contains_text(&candidates, name) {
            descend.push(d);
            assert(descend@.map_values(|i: usize| i as int) =~= before + seq![d as int]);
        } else {
            assert(descend@.map_values(|i: usize| i as int) =~= before);
        }
        d = d + 1;
    }
    DirPlan { kinds, candidate_targets: candidates, found_targets: found, descend }
}

} // verus!
