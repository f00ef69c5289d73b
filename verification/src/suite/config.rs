//! Which cases a run selects: the run configuration and the plain description
//! of a case that selection reads.
use vstd::prelude::*;

verus! {

/// The part of a case that selection reads: its name and the names of the
/// cases it depends on.
pub struct CaseSpec {
    pub name: String,
    pub dependencies: Vec<String>,
}

impl CaseSpec {
    /// A case with no dependencies.
    pub fn new(name: &str) -> (c: CaseSpec)
        ensures
            c.name@ == name@,
            c.dependencies@.len() == 0,
    {
        CaseSpec { name: String::from_str(name), dependencies: Vec::new() }
    }

    /// A case that depends on the cases named in `dependencies`, in that order.
    pub fn with_dependencies(name: &str, dependencies: Vec<String>) -> (c: CaseSpec)
        ensures
            c.name@ == name@,
            c.dependencies@ == dependencies@,
    {
        CaseSpec { name: String::from_str(name), dependencies }
    }
}

/// Controls which cases a run executes.
#[derive(Debug)]
pub struct RunConfig {
    /// When set, the case with exactly this name is selected.
    pub filter: Option<String>,
    /// Cases whose names appear in this list are selected.
    pub filters: Vec<String>,
    /// When set, cases whose names match this pattern are selected.
    pub pattern: Option<String>,
}

/// The configuration narrows the run to some cases.
pub open spec fn has_filter(cfg: RunConfig) -> bool {
    cfg.filter is Some || cfg.filters@.len() > 0 || cfg.pattern is Some
}

/// The configuration names `n` explicitly, by `filter` or in `filters`.
pub open spec fn names_case(cfg: RunConfig, n: Seq<char>) -> bool {
    (cfg.filter matches Some(f) && f@ == n) || exists|k: int|
        0 <= k < cfg.filters@.len() && #[trigger] cfg.filters@[k]@ == n
}

/// A case named `n` is selected directly: named explicitly, or (when a pattern
/// is set) matched by it, `hit` telling whether the pattern matches `n`.
pub open spec fn directly_selects(cfg: RunConfig, n: Seq<char>, hit: bool) -> bool {
    names_case(cfg, n) || (cfg.pattern is Some && hit)
}

impl Default for RunConfig {
    fn default() -> (c: RunConfig)
        ensures
            c.filter is None,
            c.filters@.len() == 0,
            c.pattern is None,
    {
        RunConfig { filter: None, filters: Vec::new(), pattern: None }
    }
}

impl Clone for RunConfig {
    fn clone(&self) -> (c: RunConfig)
        ensures
            c.filter == self.filter,
            c.filters@ == self.filters@,
            c.pattern == self.pattern,
    {
        let filter = match &self.filter {
            Some(f) => Some(f.clone()),
            None => None,
        };
        let pattern = match &self.pattern {
            Some(p) => Some(p.clone()),
            None => None,
        };
        let mut filters: Vec<String> = Vec::new();
        let mut i: usize = 0;
        while i < self.filters.len()
            invariant
                i <= self.filters@.len(),
                filters@ == self.filters@.subrange(0, i as int),
            decreases self.filters.len() - i,
        {
            filters.push(self.filters[i].clone());
            i = i + 1;
            assert(filters@ =~= self.filters@.subrange(0, i as int));
        }
        assert(filters@ =~= self.filters@);
        RunConfig { filter, filters, pattern }
    }
}

impl RunConfig {
    /// No narrowing: every case runs.
    pub fn all() -> (c: RunConfig)
        ensures
            !has_filter(c),
            c.filter is None,
            c.filters@.len() == 0,
            c.pattern is None,
    {
        RunConfig { filter: None, filters: Vec::new(), pattern: None }
    }

    /// Runs the case named `name` (and what it depends on).
    pub fn filter(name: &str) -> (c: RunConfig)
        ensures
            c.filter matches Some(f) && f@ == name@,
            c.filters@.len() == 0,
            c.pattern is None,
    {
        RunConfig { filter: Some(String::from_str(name)), filters: Vec::new(), pattern: None }
    }

    /// Runs the cases whose names appear in `names` (and what they depend on).
    pub fn filters(names: Vec<String>) -> (c: RunConfig)
        ensures
            c.filter is None,
            c.filters@ == names@,
            c.pattern is None,
    {
        RunConfig { filter: None, filters: names, pattern: None }
    }

    /// Runs the cases whose names match `pat` (and what they depend on).
    pub fn pattern(pat: &str) -> (c: RunConfig)
        ensures
            c.filter is None,
            c.filters@.len() == 0,
            c.pattern matches Some(p) && p@ == pat@,
    {
        RunConfig { filter: None, filters: Vec::new(), pattern: Some(String::from_str(pat)) }
    }

    /// Whether this configuration narrows the run.
    pub fn is_filtered(&self) -> (r: bool)
        ensures
            r == has_filter(*self),
    {
        self.filter.is_some() || self.filters.len() > 0 || self.pattern.is_some()
    }
}

/// The position of the first `--case` that has a value after it.
pub open spec fn case_flag_at(args: Seq<Seq<char>>, i: int) -> bool {
    &&& 0 <= i
    &&& i + 1 < args.len()
    &&& args[i] == "--case"@
    &&& forall|k: int| 0 <= k < i ==> !(#[trigger] args[k] == "--case"@ && k + 1 < args.len())
}

impl RunConfig {
    /// The configuration given by command-line arguments: `--case PATTERN`
    /// (the first one with a value) selects by pattern; otherwise every case
    /// runs.
    pub fn from_args(args: &[String]) -> (c: RunConfig)
        ensures
            ({
                let v = args@.map_values(|s: String| s@);
                if exists|i: int| case_flag_at(v, i) {
                    let i = choose|i: int| case_flag_at(v, i);
                    &&& c.filter is None
                    &&& c.filters@.len() == 0
                    &&& c.pattern matches Some(p) && p@ == v[i + 1]
                } else {
                    &&& c.filter is None
                    &&& c.filters@.len() == 0
                    &&& c.pattern is None
                }
            }),
    {
        let ghost v = args@.map_values(|s: String| s@);
        let mut i: usize = 0;
        while i < args.len()
            invariant
                v == args@.map_values(|s: String| s@),
                i <= args@.len(),
                forall|k: int| 0 <= k < i ==> !(#[trigger] v[k] == "--case"@ && k + 1 < v.len()),
            decreases args.len() - i,
        {
            assert(v[i as int] == args@[i as int]@);
            if crate::text::str_eq(args[i].as_str(), "--case") && i + 1 < args.len() {
                proof {
                    assert(case_flag_at(v, i as int));
                    let j = choose|j: int| case_flag_at(v, j);
                    if j < i {
                        assert(!(v[j] == "--case"@ && j + 1 < v.len()));
                    }
                    if i < j {
                        assert(!(v[i as int] == "--case"@ && i + 1 < v.len()));
                    }
                    assert(v[i + 1] == args@[i + 1]@);
                }
                return RunConfig::pattern(args[i + 1].as_str());
            }
            i = i + 1;
        }
        proof {
            if exists|j: int| case_flag_at(v, j) {
                let j = choose|j: int| case_flag_at(v, j);
                assert(!(v[j] == "--case"@ && j + 1 < v.len()));
            }
        }
        RunConfig::all()
    }
}

} // verus!
