//! The code-analysis cache snapshot, and the numeric project state derived
//! from it for condition evaluation.

use vstd::prelude::*;

use crate::strutil::str_eq;

verus! {

/// Mutation lock level of a file.
#[derive(Debug, Clone, Copy, PartialEq, Eq, Structural)]
pub enum LockLevel {
    Frozen,
    Restricted,
    ApprovalRequired,
    TestsRequired,
    DocsRequired,
    Normal,
}

/// A file's mutation constraint.
pub struct MutationConstraint {
    pub level: LockLevel,
    pub reason: Option<String>,
}

/// Mathematical image of a [`MutationConstraint`].
pub struct MutationView {
    pub level: LockLevel,
    pub reason: Option<Seq<char>>,
}

impl View for MutationConstraint {
    type V = MutationView;

    open spec fn view(&self) -> MutationView {
        MutationView {
            level: self.level,
            reason: match self.reason {
                Some(ref s) => Some(s@),
                None => None,
            },
        }
    }
}

/// Constraint record of one file.
pub struct FileConstraint {
    pub path: String,
    pub mutation: Option<MutationConstraint>,
}

/// Mathematical image of a [`FileConstraint`].
pub struct ConstraintView {
    pub path: Seq<char>,
    pub mutation: Option<MutationView>,
}

impl View for FileConstraint {
    type V = ConstraintView;

    open spec fn view(&self) -> ConstraintView {
        ConstraintView {
            path: self.path@,
            mutation: match self.mutation {
                Some(ref m) => Some(m@),
                None => None,
            },
        }
    }
}

/// Metadata of one file in the cache.
pub struct FileRecord {
    pub path: String,
    pub layer: Option<String>,
    pub language: String,
}

/// Mathematical image of a [`FileRecord`].
pub struct FileView {
    pub path: Seq<char>,
    pub layer: Option<Seq<char>>,
    pub language: Seq<char>,
}

impl View for FileRecord {
    type V = FileView;

    open spec fn view(&self) -> FileView {
        FileView {
            path: self.path@,
            layer: match self.layer {
                Some(ref s) => Some(s@),
                None => None,
            },
            language: self.language@,
        }
    }
}

/// One domain of the cache.
pub struct DomainRecord {
    pub name: String,
    pub files: Vec<String>,
    pub description: Option<String>,
}

/// Mathematical image of a [`DomainRecord`].
pub struct DomainView {
    pub name: Seq<char>,
    pub files: Seq<Seq<char>>,
    pub description: Option<Seq<char>>,
}

impl View for DomainRecord {
    type V = DomainView;

    open spec fn view(&self) -> DomainView {
        DomainView {
            name: self.name@,
            files: self.files.deep_view(),
            description: match self.description {
                Some(ref s) => Some(s@),
                None => None,
            },
        }
    }
}

/// Aggregate statistics of the cache.
#[derive(Debug, Clone, Copy, PartialEq, Eq, Structural)]
pub struct CacheStats {
    pub lines: usize,
    /// Annotation coverage in thousandths (permille).
    pub annotation_coverage_permille: u32,
}

/// The read-only code-analysis snapshot the engine works from: files with
/// layer membership, domains, optional per-file constraints, a symbol
/// count and aggregate statistics.
pub struct Cache {
    pub files: Vec<FileRecord>,
    pub symbol_count: usize,
    pub domains: Vec<DomainRecord>,
    pub constraints: Option<Vec<FileConstraint>>,
    pub stats: CacheStats,
}

/// Mathematical image of a [`Cache`].
pub struct CacheView {
    pub files: Seq<FileView>,
    pub symbol_count: usize,
    pub domains: Seq<DomainView>,
    pub constraints: Option<Seq<ConstraintView>>,
    pub stats: CacheStats,
}

impl View for Cache {
    type V = CacheView;

    open spec fn view(&self) -> CacheView {
        CacheView {
            files: self.files@.map_values(|f: FileRecord| f@),
            symbol_count: self.symbol_count,
            domains: self.domains@.map_values(|d: DomainRecord| d@),
            constraints: match self.constraints {
                Some(ref cs) => Some(cs@.map_values(|c: FileConstraint| c@)),
                None => None,
            },
            stats: self.stats,
        }
    }
}

impl Cache {
    /// An empty snapshot: no files, domains, symbols or constraints.
    pub fn new() -> (r: Self)
        ensures
            r@.files.len() == 0,
            r@.domains.len() == 0,
            r@.constraints is None,
            r@.symbol_count == 0,
            r@.stats.lines == 0,
            r@.stats.annotation_coverage_permille == 0,
    {
        let r = Cache {
            files: Vec::new(),
            symbol_count: 0,
            domains: Vec::new(),
            constraints: None,
            stats: CacheStats { lines: 0, annotation_coverage_permille: 0 },
        };
        proof {
            assert(r@.files =~= Seq::<FileView>::empty());
            assert(r@.domains =~= Seq::<DomainView>::empty());
        }
        r
    }
}

/// Counts of files per mutation lock level.
#[derive(Debug, Clone, Copy, PartialEq, Eq, Structural)]
pub struct ConstraintCounts {
    pub frozen_count: usize,
    pub restricted_count: usize,
    pub approval_count: usize,
    pub tests_required_count: usize,
    pub docs_required_count: usize,
    pub protected_count: usize,
    pub total_count: usize,
}

impl ConstraintCounts {
    pub open spec fn spec_default() -> ConstraintCounts {
        ConstraintCounts {
            frozen_count: 0,
            restricted_count: 0,
            approval_count: 0,
            tests_required_count: 0,
            docs_required_count: 0,
            protected_count: 0,
            total_count: 0,
        }
    }
}

impl Default for ConstraintCounts {
    fn default() -> (r: Self)
        ensures
            r == ConstraintCounts::spec_default(),
    {
        ConstraintCounts {
            frozen_count: 0,
            restricted_count: 0,
            approval_count: 0,
            tests_required_count: 0,
            docs_required_count: 0,
            protected_count: 0,
            total_count: 0,
        }
    }
}

/// Count and names of domains.
pub struct DomainCounts {
    pub count: usize,
    pub names: Vec<String>,
}

impl Default for DomainCounts {
    fn default() -> (r: Self)
        ensures
            r.count == 0,
            r.names.deep_view().len() == 0,
    {
        DomainCounts { count: 0, names: Vec::new() }
    }
}

/// Count and names of layers.
pub struct LayerCounts {
    pub count: usize,
    pub names: Vec<String>,
}

impl Default for LayerCounts {
    fn default() -> (r: Self)
        ensures
            r.count == 0,
            r.names.deep_view().len() == 0,
    {
        LayerCounts { count: 0, names: Vec::new() }
    }
}

/// Count of tracked variables.
#[derive(Debug, Clone, Copy, PartialEq, Eq, Structural)]
pub struct VariableCounts {
    pub count: usize,
}

impl Default for VariableCounts {
    fn default() -> (r: Self)
        ensures
            r.count == 0,
    {
        VariableCounts { count: 0 }
    }
}

/// Counts of recorded attempts.
#[derive(Debug, Clone, Copy, PartialEq, Eq, Structural)]
pub struct AttemptCounts {
    pub active_count: usize,
    pub total_count: usize,
}

impl Default for AttemptCounts {
    fn default() -> (r: Self)
        ensures
            r.active_count == 0 && r.total_count == 0,
    {
        AttemptCounts { active_count: 0, total_count: 0 }
    }
}

/// Counts of recorded hacks.
#[derive(Debug, Clone, Copy, PartialEq, Eq, Structural)]
pub struct HackCounts {
    pub count: usize,
    pub expired_count: usize,
}

impl Default for HackCounts {
    fn default() -> (r: Self)
        ensures
            r.count == 0 && r.expired_count == 0,
    {
        HackCounts { count: 0, expired_count: 0 }
    }
}

/// Count of entry points.
#[derive(Debug, Clone, Copy, PartialEq, Eq, Structural)]
pub struct EntryPointCounts {
    pub count: usize,
}

impl Default for EntryPointCounts {
    fn default() -> (r: Self)
        ensures
            r.count == 0,
    {
        EntryPointCounts { count: 0 }
    }
}

/// Aggregate project statistics.
#[derive(Debug, Clone, Copy, PartialEq, Eq, Structural)]
pub struct ProjectStats {
    pub file_count: usize,
    pub symbol_count: usize,
    pub line_count: usize,
    /// Annotation coverage in thousandths (permille).
    pub annotation_coverage_permille: u32,
}

impl Default for ProjectStats {
    fn default() -> (r: Self)
        ensures
            r.file_count == 0 && r.symbol_count == 0 && r.line_count == 0,
            r.annotation_coverage_permille == 0,
    {
        ProjectStats { file_count: 0, symbol_count: 0, line_count: 0, annotation_coverage_permille: 0 }
    }
}

/// Numeric project state extracted from the cache for condition
/// evaluation: every queryable path resolves to a count here.
pub struct ProjectState {
    pub constraints: ConstraintCounts,
    pub domains: DomainCounts,
    pub layers: LayerCounts,
    pub variables: VariableCounts,
    pub attempts: AttemptCounts,
    pub hacks: HackCounts,
    pub entry_points: EntryPointCounts,
    pub stats: ProjectStats,
}

impl Default for ProjectState {
    fn default() -> (r: Self)
        ensures
            r.constraints == ConstraintCounts::spec_default(),
            r.domains.count == 0,
            r.layers.count == 0,
            r.variables.count == 0,
            r.attempts.active_count == 0 && r.attempts.total_count == 0,
            r.hacks.count == 0 && r.hacks.expired_count == 0,
            r.entry_points.count == 0,
            r.stats.file_count == 0 && r.stats.symbol_count == 0 && r.stats.line_count == 0,
    {
        ProjectState {
            constraints: Default::default(),
            domains: Default::default(),
            layers: Default::default(),
            variables: Default::default(),
            attempts: Default::default(),
            hacks: Default::default(),
            entry_points: Default::default(),
            stats: Default::default(),
        }
    }
}

/// Whether a constraint record carries the given lock level.
pub open spec fn has_level(c: ConstraintView, lv: LockLevel) -> bool {
    match c.mutation {
        Some(m) => m.level == lv,
        None => false,
    }
}

/// Whether a constraint record is protected: frozen or restricted.
pub open spec fn is_protected(c: ConstraintView) -> bool {
    has_level(c, LockLevel::Frozen) || has_level(c, LockLevel::Restricted)
}

/// How many records of `cs` carry the lock level `lv`.
pub open spec fn count_level(cs: Seq<ConstraintView>, lv: LockLevel) -> int
    decreases cs.len(),
{
    if cs.len() == 0 {
        0
    } else {
        count_level(cs.drop_last(), lv) + if has_level(cs.last(), lv) {
            1int
        } else {
            0
        }
    }
}

/// How many records of `cs` are protected.
pub open spec fn count_protected(cs: Seq<ConstraintView>) -> int
    decreases cs.len(),
{
    if cs.len() == 0 {
        0
    } else {
        count_protected(cs.drop_last()) + if is_protected(cs.last()) {
            1int
        } else {
            0
        }
    }
}

/// The distinct layer names of `files`, in order of first appearance.
pub open spec fn spec_layer_names(files: Seq<FileView>) -> Seq<Seq<char>>
    decreases files.len(),
{
    if files.len() == 0 {
        Seq::empty()
    } else {
        let prev = spec_layer_names(files.drop_last());
        match files.last().layer {
            Some(l) => if prev.contains(l) {
                prev
            } else {
                prev.push(l)
            },
            None => prev,
        }
    }
}

/// The constraint counts that `from_cache` derives.
pub open spec fn spec_constraint_counts(c: CacheView) -> ConstraintCounts {
    match c.constraints {
        None => ConstraintCounts::spec_default(),
        Some(cs) => ConstraintCounts {
            frozen_count: count_level(cs, LockLevel::Frozen) as usize,
            restricted_count: count_level(cs, LockLevel::Restricted) as usize,
            approval_count: count_level(cs, LockLevel::ApprovalRequired) as usize,
            tests_required_count: count_level(cs, LockLevel::TestsRequired) as usize,
            docs_required_count: count_level(cs, LockLevel::DocsRequired) as usize,
            protected_count: count_protected(cs) as usize,
            total_count: cs.len() as usize,
        },
    }
}

proof fn lemma_count_bounds(cs: Seq<ConstraintView>, lv: LockLevel)
    ensures
        0 <= count_level(cs, lv) <= cs.len(),
        0 <= count_protected(cs) <= cs.len(),
    decreases cs.len(),
{
    if cs.len() > 0 {
        lemma_count_bounds(cs.drop_last(), lv);
    }
}

/// Whether `v` holds a string whose view is `x`.
pub fn contains_string(v: &Vec<String>, x: &str) -> (r: bool)
    ensures
        r == v.deep_view().contains(x@),
{
    let mut i: usize = 0;
    while i < v.len()
        invariant
            0 <= i <= v@.len(),
            forall|j: int| 0 <= j < i ==> v.deep_view()[j] != x@,
        decreases v@.len() - i,
    {
        if str_eq(v[i].as_str(), x) {
            assert(v.deep_view()[i as int] == x@);
            return true;
        }
        i += 1;
    }
    false
}

/// Whether `s` is the state snapshot that `from_cache` derives from
/// `c`: per-level constraint counts, domain and layer counts and names,
/// aggregate statistics, and zeroed externally supplied counters.
pub open spec fn is_state_of(s: ProjectState, c: CacheView) -> bool {
    &&& s.constraints == spec_constraint_counts(c)
    &&& s.domains.count == c.domains.len()
    &&& s.domains.names.deep_view() == c.domains.map_values(|d: DomainView| d.name)
    &&& s.layers.count == spec_layer_names(c.files).len()
    &&& s.layers.names.deep_view() == spec_layer_names(c.files)
    &&& s.variables.count == 0
    &&& s.attempts.active_count == 0 && s.attempts.total_count == 0
    &&& s.hacks.count == 0 && s.hacks.expired_count == 0
    &&& s.entry_points.count == 0
    &&& s.stats.file_count == c.files.len()
    &&& s.stats.symbol_count == c.symbol_count
    &&& s.stats.line_count == c.stats.lines
    &&& s.stats.annotation_coverage_permille == c.stats.annotation_coverage_permille
}

impl ProjectState {
    /// Derives the numeric state snapshot from a cache: per-level
    /// constraint counts, domain and layer counts and names, and
    /// aggregate statistics.  Variable, attempt, hack and entry-point
    /// counts start at zero and are supplied separately.
    pub fn from_cache(cache: &Cache) -> (r: ProjectState)
        ensures
            is_state_of(r, cache@),
    {
        let constraints = Self::extract_constraints(cache);
        let domains = Self::extract_domains(cache);
        let layers = Self::extract_layers(cache);
        ProjectState {
            constraints,
            domains,
            layers,
            variables: Default::default(),
            attempts: Default::default(),
            hacks: Default::default(),
            entry_points: Default::default(),
            stats: ProjectStats {
                file_count: cache.files.len(),
                symbol_count: cache.symbol_count,
                line_count: cache.stats.lines,
                annotation_coverage_permille: cache.stats.annotation_coverage_permille,
            },
        }
    }

    #[verifier::loop_isolation(false)]
    fn extract_constraints(cache: &Cache) -> (r: ConstraintCounts)
        ensures
            r == spec_constraint_counts(cache@),
    {
        let cs = match &cache.constraints {
            Some(cs) => cs,
            None => {
                return Default::default();
            },
        };
        let ghost csv = cs@.map_values(|c: FileConstraint| c@);
        let mut counts: ConstraintCounts = Default::default();
        let mut i: usize = 0;
        while i < cs.len()
            invariant
                0 <= i <= cs@.len(),
                csv == cs@.map_values(|c: FileConstraint| c@),
                counts.frozen_count == count_level(csv.subrange(0, i as int), LockLevel::Frozen),
                counts.restricted_count == count_level(
                    csv.subrange(0, i as int),
                    LockLevel::Restricted,
                ),
                counts.approval_count == count_level(
                    csv.subrange(0, i as int),
                    LockLevel::ApprovalRequired,
                ),
                counts.tests_required_count == count_level(
                    csv.subrange(0, i as int),
                    LockLevel::TestsRequired,
                ),
                counts.docs_required_count == count_level(
                    csv.subrange(0, i as int),
                    LockLevel::DocsRequired,
                ),
                counts.protected_count == count_protected(csv.subrange(0, i as int)),
                counts.total_count == i,
            decreases cs@.len() - i,
        {
            proof {
                lemma_count_bounds(csv.subrange(0, i as int), LockLevel::Frozen);
                lemma_count_bounds(csv.subrange(0, i as int), LockLevel::Restricted);
                lemma_count_bounds(csv.subrange(0, i as int), LockLevel::ApprovalRequired);
                lemma_count_bounds(csv.subrange(0, i as int), LockLevel::TestsRequired);
                lemma_count_bounds(csv.subrange(0, i as int), LockLevel::DocsRequired);
                let pre = csv.subrange(0, i as int);
                let post = csv.subrange(0, i + 1);
                assert(post.drop_last() =~= pre);
                assert(post.last() == csv[i as int]);
            }
            counts.total_count += 1;
            match &cs[i].mutation {
                Some(m) => {
                    match m.level {
                        LockLevel::Frozen => {
                            counts.frozen_count += 1;
                            counts.protected_count += 1;
                        },
                        LockLevel::Restricted => {
                            counts.restricted_count += 1;
                            counts.protected_count += 1;
                        },
                        LockLevel::ApprovalRequired => {
                            counts.approval_count += 1;
                        },
                        LockLevel::TestsRequired => {
                            counts.tests_required_count += 1;
                        },
                        LockLevel::DocsRequired => {
                            counts.docs_required_count += 1;
                        },
                        LockLevel::Normal => {},
                    }
                },
                None => {},
            }
            i += 1;
        }
        proof {
            assert(csv.subrange(0, cs@.len() as int) =~= csv);
        }
        counts
    }

    #[verifier::loop_isolation(false)]
    fn extract_domains(cache: &Cache) -> (r: DomainCounts)
        ensures
            r.count == cache@.domains.len(),
            r.names.deep_view() == cache@.domains.map_values(|d: DomainView| d.name),
    {
        let mut names: Vec<String> = Vec::new();
        let mut i: usize = 0;
        while i < cache.domains.len()
            invariant
                0 <= i <= cache.domains@.len(),
                names@.len() == i,
                forall|j: int| 0 <= j < i ==> #[trigger] names@[j]@ == cache@.domains[j].name,
            decreases cache.domains@.len() - i,
        {
            names.push(cache.domains[i].name.clone());
            i += 1;
        }
        proof {
            assert(forall|j: int|
                0 <= j < names@.len() ==> #[trigger] names.deep_view()[j] == names@[j]@);
            assert(names.deep_view() =~= cache@.domains.map_values(|d: DomainView| d.name));
        }
        let count = cache.domains.len();
        DomainCounts { count, names }
    }

    #[verifier::loop_isolation(false)]
    fn extract_layers(cache: &Cache) -> (r: LayerCounts)
        ensures
            r.count == spec_layer_names(cache@.files).len(),
            r.names.deep_view() == spec_layer_names(cache@.files),
    {
        let mut names: Vec<String> = Vec::new();
        let mut i: usize = 0;
        while i < cache.files.len()
            invariant
                0 <= i <= cache.files@.len(),
                names.deep_view() == spec_layer_names(cache@.files.subrange(0, i as int)),
            decreases cache.files@.len() - i,
        {
            proof {
                let pre = cache@.files.subrange(0, i as int);
                let post = cache@.files.subrange(0, i + 1);
                assert(post.drop_last() =~= pre);
                assert(post.last() == cache@.files[i as int]);
            }
            match &cache.files[i].layer {
                Some(l) => {
                    if !contains_string(&names, l.as_str()) {
                        names.push(l.clone());
                        proof {
                            assert(names.deep_view() =~= spec_layer_names(
                                cache@.files.subrange(0, i + 1),
                            ));
                        }
                    }
                },
                None => {},
            }
            i += 1;
        }
        proof {
            assert(cache@.files.subrange(0, cache.files@.len() as int) =~= cache@.files);
        }
        let count = names.len();
        proof {
            assert(names.deep_view().len() == names@.len());
        }
        LayerCounts { count, names }
    }

    /// Returns this state with the variable count set.
    pub fn with_variable_count(self, count: usize) -> (r: Self)
        ensures
            r.variables.count == count,
            r.constraints == self.constraints,
            r.domains.count == self.domains.count,
            r.domains.names.deep_view() == self.domains.names.deep_view(),
            r.layers.count == self.layers.count,
            r.layers.names.deep_view() == self.layers.names.deep_view(),
            r.attempts == self.attempts,
            r.hacks == self.hacks,
            r.entry_points == self.entry_points,
            r.stats == self.stats,
    {
        let mut s = self;
        s.variables.count = count;
        s
    }

    /// Returns this state with the attempt counts set.
    pub fn with_attempts(self, active: usize, total: usize) -> (r: Self)
        ensures
            r.attempts.active_count == active,
            r.attempts.total_count == total,
            r.constraints == self.constraints,
            r.domains.count == self.domains.count,
            r.domains.names.deep_view() == self.domains.names.deep_view(),
            r.layers.count == self.layers.count,
            r.layers.names.deep_view() == self.layers.names.deep_view(),
            r.variables == self.variables,
            r.hacks == self.hacks,
            r.entry_points == self.entry_points,
            r.stats == self.stats,
    {
        let mut s = self;
        s.attempts.active_count = active;
        s.attempts.total_count = total;
        s
    }

    /// The value a dotted path resolves to in this state, if any: the
    /// exhaustive table of queryable counters.
    pub open spec fn spec_get_value(self, path: Seq<char>) -> Option<usize> {
        if path == "constraints.frozenCount"@ {
            Some(self.constraints.frozen_count)
        } else if path == "constraints.restrictedCount"@ {
            Some(self.constraints.restricted_count)
        } else if path == "constraints.approvalCount"@ {
            Some(self.constraints.approval_count)
        } else if path == "constraints.testsRequiredCount"@ {
            Some(self.constraints.tests_required_count)
        } else if path == "constraints.docsRequiredCount"@ {
            Some(self.constraints.docs_required_count)
        } else if path == "constraints.protectedCount"@ {
            Some(self.constraints.protected_count)
        } else if path == "constraints.totalCount"@ {
            Some(self.constraints.total_count)
        } else if path == "domains.count"@ {
            Some(self.domains.count)
        } else if path == "layers.count"@ {
            Some(self.layers.count)
        } else if path == "variables.count"@ {
            Some(self.variables.count)
        } else if path == "attempts.activeCount"@ {
            Some(self.attempts.active_count)
        } else if path == "attempts.totalCount"@ {
            Some(self.attempts.total_count)
        } else if path == "hacks.count"@ {
            Some(self.hacks.count)
        } else if path == "hacks.expiredCount"@ {
            Some(self.hacks.expired_count)
        } else if path == "entryPoints.count"@ {
            Some(self.entry_points.count)
        } else if path == "stats.fileCount"@ {
            Some(self.stats.file_count)
        } else if path == "stats.symbolCount"@ {
            Some(self.stats.symbol_count)
        } else if path == "stats.lineCount"@ {
            Some(self.stats.line_count)
        } else {
            None
        }
    }

    /// Resolves a dotted path, such as `constraints.frozenCount`, to its
    /// counter; unknown paths resolve to `None`, never an error.
    pub fn get_value(&self, path: &str) -> (r: Option<usize>)
        ensures
            r == self.spec_get_value(path@),
    {
        if str_eq(path, "constraints.frozenCount") {
            Some(self.constraints.frozen_count)
        } else if str_eq(path, "constraints.restrictedCount") {
            Some(self.constraints.restricted_count)
        } else if str_eq(path, "constraints.approvalCount") {
            Some(self.constraints.approval_count)
        } else if str_eq(path, "constraints.testsRequiredCount") {
            Some(self.constraints.tests_required_count)
        } else if str_eq(path, "constraints.docsRequiredCount") {
            Some(self.constraints.docs_required_count)
        } else if str_eq(path, "constraints.protectedCount") {
            Some(self.constraints.protected_count)
        } else if str_eq(path, "constraints.totalCount") {
            Some(self.constraints.total_count)
        } else if str_eq(path, "domains.count") {
            Some(self.domains.count)
        } else if str_eq(path, "layers.count") {
            Some(self.layers.count)
        } else if str_eq(path, "variables.count") {
            Some(self.variables.count)
        } else if str_eq(path, "attempts.activeCount") {
            Some(self.attempts.active_count)
        } else if str_eq(path, "attempts.totalCount") {
            Some(self.attempts.total_count)
        } else if str_eq(path, "hacks.count") {
            Some(self.hacks.count)
        } else if str_eq(path, "hacks.expiredCount") {
            Some(self.hacks.expired_count)
        } else if str_eq(path, "entryPoints.count") {
            Some(self.entry_points.count)
        } else if str_eq(path, "stats.fileCount") {
            Some(self.stats.file_count)
        } else if str_eq(path, "stats.symbolCount") {
            Some(self.stats.symbol_count)
        } else if str_eq(path, "stats.lineCount") {
            Some(self.stats.line_count)
        } else {
            None
        }
    }
}

} // verus!
