//! The version solver: a state machine that its driver steps, answering its requests to the
//! package registry. Each step does what `crate::model::spec_step` says.

use vstd::prelude::*;
use crate::collections::{
    IndexMap, index_map, index_stack, pair_stack, index_map_get, index_map_insert, index_stack_push, index_stack_get,
    index_stack_len, index_stack_pop, index_stack_clone, index_stack_new, index_map_new, pair_stack_push, pair_stack_new,
};
use crate::dependency::{
    Dependency, Metadata, SpecDependency, SpecMetadata, StringTable, opt_view, seq_find, seq_intern,
    lemma_seq_find, lemma_seq_intern,
};
use crate::model::{
    AbortView, ActionView, AnalysisView, RequestView, ResponseView, SolverView, SpecError,
};
use crate::solution::{Dependant, Frame, FrameView, Mark, Outcome, Solution};

verus! {

/// An error of version solving (see `SpecError`).
pub enum SolveError {
    PackageVersionConflict,
    PackageCycleExists { dependant: Dependant },
    Backtrack { package: usize, previous_version: String, erroneous_dependencies: Vec<(usize, usize)> },
    PathDependencyNotFound { dependency: usize },
    Other(String),
}

impl View for SolveError {
    type V = SpecError;

    open spec fn view(&self) -> SpecError {
        match self {
            SolveError::PackageVersionConflict => SpecError::PackageVersionConflict,
            SolveError::PackageCycleExists { dependant } => SpecError::PackageCycleExists { dependant: *dependant },
            SolveError::Backtrack { package, previous_version, erroneous_dependencies } => SpecError::Backtrack {
                package: *package,
                previous_version: previous_version@,
                erroneous_dependencies: erroneous_dependencies@,
            },
            SolveError::PathDependencyNotFound { dependency } => SpecError::PathDependencyNotFound { dependency: *dependency },
            SolveError::Other(m) => SpecError::Other(m@),
        }
    }
}

/// What the solver knows of a package: its metadata and dependencies, by index.
pub struct Analysis {
    pub metadata: usize,
    pub dependencies: Vec<usize>,
}

impl View for Analysis {
    type V = AnalysisView;

    open spec fn view(&self) -> AnalysisView {
        AnalysisView { metadata: self.metadata, dependencies: self.dependencies@ }
    }
}

/// A question to the package registry.
pub enum Request {
    Versions { name: String },
    Package { name: String, version: String },
    Analysis { package: String },
}

impl View for Request {
    type V = RequestView;

    open spec fn view(&self) -> RequestView {
        match self {
            Request::Versions { name } => RequestView::Versions { name: name@ },
            Request::Package { name, version } => RequestView::Package { name: name@, version: version@ },
            Request::Analysis { package } => RequestView::Analysis { package: package@ },
        }
    }
}

/// An answer of the package registry, or its error message.
pub enum Response {
    Versions(Result<Vec<String>, String>),
    Package(Result<Option<String>, String>),
    Analysis(Result<(Metadata, Vec<Dependency>), String>),
}

impl View for Response {
    type V = ResponseView;

    open spec fn view(&self) -> ResponseView {
        match self {
            Response::Versions(Ok(vs)) => ResponseView::Versions(Ok(vs@.map_values(|v: String| v@))),
            Response::Versions(Err(e)) => ResponseView::Versions(Err(e@)),
            Response::Package(Ok(Some(id))) => ResponseView::Package(Ok(Some(id@))),
            Response::Package(Ok(None)) => ResponseView::Package(Ok(None)),
            Response::Package(Err(e)) => ResponseView::Package(Err(e@)),
            Response::Analysis(Ok((m, ds))) => ResponseView::Analysis(Ok((m@, ds@.map_values(|d: Dependency| d@)))),
            Response::Analysis(Err(e)) => ResponseView::Analysis(Err(e@)),
        }
    }
}

/// The view of an optional response.
pub open spec fn resp_view(r: &Option<Response>) -> Option<ResponseView> {
    match r {
        Some(x) => Some(x@),
        None => None,
    }
}

/// Why solving cannot go on (see `AbortView`).
pub enum Abort {
    MissingName,
    MissingVersion,
    MissingMark,
    AnalysisFailed(String),
    UnexpectedResponse,
    InvalidReference,
}

impl View for Abort {
    type V = AbortView;

    open spec fn view(&self) -> AbortView {
        match self {
            Abort::MissingName => AbortView::MissingName,
            Abort::MissingVersion => AbortView::MissingVersion,
            Abort::MissingMark => AbortView::MissingMark,
            Abort::AnalysisFailed(e) => AbortView::AnalysisFailed(e@),
            Abort::UnexpectedResponse => AbortView::UnexpectedResponse,
            Abort::InvalidReference => AbortView::InvalidReference,
        }
    }
}

/// What the solver asks of its driver after a step.
pub enum Action {
    Continue,
    Request(Request),
    Done,
    Abort(Abort),
}

impl View for Action {
    type V = ActionView;

    open spec fn view(&self) -> ActionView {
        match self {
            Action::Continue => ActionView::Continue,
            Action::Request(r) => ActionView::Request(r@),
            Action::Done => ActionView::Done,
            Action::Abort(a) => ActionView::Abort(a@),
        }
    }
}

/// The view of an optional analysis.
pub open spec fn analysis_view(a: &Option<Analysis>) -> Option<AnalysisView> {
    match a {
        Some(x) => Some(x@),
        None => None,
    }
}

/// The view of a path table.
pub open spec fn path_table_view(t: &Option<Vec<(String, usize)>>) -> Option<Seq<(Seq<char>, usize)>> {
    match t {
        Some(v) => Some(v@.map_values(|e: (String, usize)| (e.0@, e.1))),
        None => None,
    }
}

/// The state of version solving.
pub struct Solver {
    pub packages: StringTable,
    pub names: StringTable,
    pub versions: StringTable,
    pub dependencies: Vec<Dependency>,
    pub metadata: Vec<Metadata>,
    pub analysis: Vec<Option<Analysis>>,
    pub published: IndexMap,
    pub path_dependencies: Vec<Option<Vec<(String, usize)>>>,
    pub errors: Vec<SolveError>,
    pub frames: Vec<Frame>,
    pub current: Frame,
    pub history: im::Vector<usize>,
}

impl View for Solver {
    type V = SolverView;

    open spec fn view(&self) -> SolverView {
        SolverView {
            packages: self.packages.view_seq(),
            names: self.names.view_seq(),
            versions: self.versions.view_seq(),
            dependencies: self.dependencies@.map_values(|d: Dependency| d@),
            metadata: self.metadata@.map_values(|m: Metadata| m@),
            analysis: self.analysis@.map_values(|a: Option<Analysis>| analysis_view(&a)),
            published: index_map(self.published),
            path_dependencies: self.path_dependencies@.map_values(|t: Option<Vec<(String, usize)>>| path_table_view(&t)),
            errors: self.errors@.map_values(|e: SolveError| e@),
            frames: self.frames@.map_values(|f: Frame| f@),
            current: self.current@,
            history: index_stack(self.history),
        }
    }
}

impl Solver {
    /// The tables of packages and their analyses and path tables have one entry per package.
    pub open spec fn wf(&self) -> bool {
        &&& self@.analysis.len() == self@.packages.len()
        &&& self@.path_dependencies.len() == self@.packages.len()
    }

    /// Interns the package id `id`.
    pub fn intern_package(&mut self, id: &str) -> (r: usize)
        requires
            old(self).wf(),
        ensures
            final(self).wf(),
            (final(self)@, r) == crate::model::spec_intern_package(old(self)@, id@),
    {
        proof {
            lemma_seq_intern(old(self)@.packages, id@);
            lemma_seq_find(old(self)@.packages, id@);
        }
        let known = self.packages.find(id).is_some();
        let i = self.packages.intern(id);
        if !known {
            self.analysis.push(None);
            self.path_dependencies.push(None);
            proof {
                assert(self@.analysis =~= old(self)@.analysis.push(None));
                assert(self@.path_dependencies =~= old(self)@.path_dependencies.push(None));
            }
        }
        proof {
            let (v, j) = crate::model::spec_intern_package(old(self)@, id@);
            assert(j == i);
            assert(self@.packages == v.packages);
            assert(self@.analysis == v.analysis);
            assert(self@.path_dependencies == v.path_dependencies);
        }
        i
    }
}


/// Filtering one more item of a sequence.
pub proof fn lemma_filter_take_step<A>(xs: Seq<A>, f: spec_fn(A) -> bool, i: int)
    requires
        0 <= i < xs.len(),
    ensures
        xs.take(i + 1).filter(f) == (if f(xs[i]) { xs.take(i).filter(f).push(xs[i]) } else { xs.take(i).filter(f) }),
{
    reveal(Seq::filter);
    assert(xs.take(i + 1).drop_last() =~= xs.take(i));
    assert(xs.take(i + 1).last() == xs[i]);
}

/// Interning only adds at the end.
pub proof fn lemma_intern_all_grows<T>(t: Seq<T>, xs: Seq<T>)
    ensures
        crate::model::spec_intern_all(t, xs).0.len() >= t.len(),
        forall|j: int| 0 <= j < t.len() ==> #[trigger] crate::model::spec_intern_all(t, xs).0[j] == t[j],
    decreases xs.len(),
{
    if xs.len() > 0 {
        lemma_intern_all_grows(t, xs.drop_last());
        let t1 = crate::model::spec_intern_all(t, xs.drop_last()).0;
        lemma_seq_intern(t1, xs.last());
    }
}

/// Interning one more item.
pub proof fn lemma_intern_all_push<T>(t: Seq<T>, ys: Seq<T>, y: T)
    ensures
        crate::model::spec_intern_all(t, ys.push(y)) == ({
            let (t1, r1) = crate::model::spec_intern_all(t, ys);
            let t2 = seq_intern(t1, y);
            (t2, r1.push(seq_find(t2, y).unwrap() as usize))
        }),
{
    assert(ys.push(y).drop_last() =~= ys);
}

impl Solver {
    /// Interns the metadata record `m`.
    pub fn intern_metadata(&mut self, m: &Metadata) -> (r: usize)
        requires
            old(self).wf(),
        ensures
            final(self).wf(),
            final(self)@ == (SolverView { metadata: seq_intern(old(self)@.metadata, m@), ..old(self)@ }),
            Some(r as int) == seq_find(final(self)@.metadata, m@),
    {
        proof {
            lemma_seq_intern(old(self)@.metadata, m@);
            lemma_seq_find(old(self)@.metadata, m@);
            crate::dependency::lemma_seq_first_index(old(self)@.metadata, m@, 0);
        }
        let mut i: usize = 0;
        while i < self.metadata.len()
            invariant
                i <= self.metadata.len(),
                self@ == old(self)@,
                self.wf(),
                forall|j: int| 0 <= j < i ==> self@.metadata[j] != m@,
            decreases self.metadata.len() - i,
        {
            if self.metadata[i].same(m) {
                proof {
                    assert(self@.metadata[i as int] == m@);
                    crate::dependency::lemma_seq_first_index(self@.metadata, m@, 0);
                    let f = crate::dependency::seq_first_index(self@.metadata, m@, 0);
                    if f < i {
                        assert(self@.metadata[f] == m@);
                    }
                    assert(self@.metadata.contains(m@));
                }
                return i;
            }
            i = i + 1;
        }
        proof {
            if self@.metadata.contains(m@) {
                let k = choose|k: int| 0 <= k < self@.metadata.len() && self@.metadata[k] == m@;
                assert(self@.metadata[k] != m@);
            }
        }
        let n = self.metadata.len();
        self.metadata.push(m.duplicate());
        proof {
            assert(self@.metadata =~= old(self)@.metadata.push(m@));
        }
        n
    }

    /// Interns the dependency `d`.
    pub fn intern_dependency(&mut self, d: &Dependency) -> (r: usize)
        requires
            old(self).wf(),
        ensures
            final(self).wf(),
            final(self)@ == (SolverView { dependencies: seq_intern(old(self)@.dependencies, d@), ..old(self)@ }),
            Some(r as int) == seq_find(final(self)@.dependencies, d@),
    {
        proof {
            lemma_seq_intern(old(self)@.dependencies, d@);
            lemma_seq_find(old(self)@.dependencies, d@);
            crate::dependency::lemma_seq_first_index(old(self)@.dependencies, d@, 0);
        }
        let mut i: usize = 0;
        while i < self.dependencies.len()
            invariant
                i <= self.dependencies.len(),
                self@ == old(self)@,
                self.wf(),
                forall|j: int| 0 <= j < i ==> self@.dependencies[j] != d@,
            decreases self.dependencies.len() - i,
        {
            if self.dependencies[i].same(d) {
                proof {
                    assert(self@.dependencies[i as int] == d@);
                    crate::dependency::lemma_seq_first_index(self@.dependencies, d@, 0);
                    let f = crate::dependency::seq_first_index(self@.dependencies, d@, 0);
                    if f < i {
                        assert(self@.dependencies[f] == d@);
                    }
                    assert(self@.dependencies.contains(d@));
                }
                return i;
            }
            i = i + 1;
        }
        proof {
            if self@.dependencies.contains(d@) {
                let k = choose|k: int| 0 <= k < self@.dependencies.len() && self@.dependencies[k] == d@;
                assert(self@.dependencies[k] != d@);
            }
        }
        let n = self.dependencies.len();
        self.dependencies.push(d.duplicate());
        proof {
            assert(self@.dependencies =~= old(self)@.dependencies.push(d@));
        }
        n
    }
}


impl Solver {
    /// Caches the analysis of package `p` from its metadata `m` and dependencies `deps`.
    pub fn cache_analysis(&mut self, p: usize, m: &Metadata, deps: &Vec<Dependency>)
        requires
            old(self).wf(),
            p < old(self)@.packages.len(),
        ensures
            final(self).wf(),
            final(self)@ == crate::model::spec_cache_analysis(old(self)@, p, m@, deps@.map_values(|d: Dependency| d@)),
    {
        let ghost s_old = self@;
        let ghost xs = deps@.map_values(|d: Dependency| d@);
        let ghost f = |d: SpecDependency| crate::model::spec_analysis_keeps(s_old, p, d);
        let mi = self.intern_metadata(m);
        let ghost s0 = self@;
        let has_table = self.path_dependencies[p].is_some();
        let mut refs: Vec<usize> = Vec::new();
        let mut i: usize = 0;
        proof {
            assert(xs.take(0).filter(f) =~= Seq::<SpecDependency>::empty()) by {
                reveal(Seq::filter);
            }
        }
        while i < deps.len()
            invariant
                self.wf(),
                p < self@.packages.len(),
                i <= deps.len(),
                xs == deps@.map_values(|d: Dependency| d@),
                has_table == (s_old.path_dependencies[p as int] is Some),
                p < s_old.path_dependencies.len(),
                f == (|d: SpecDependency| crate::model::spec_analysis_keeps(s_old, p, d)),
                (self@.dependencies, refs@) == crate::model::spec_intern_all(s_old.dependencies, xs.take(i as int).filter(f)),
                self@ == (SolverView { dependencies: self@.dependencies, ..s0 }),
            decreases deps.len() - i,
        {
            proof {
                lemma_filter_take_step(xs, f, i as int);
            }
            let keep = !(has_table && deps[i].path.is_some());
            assert(keep == f(xs[i as int]));
            if keep {
                let ghost before = self@.dependencies;
                let r = self.intern_dependency(&deps[i]);
                refs.push(r);
                proof {
                    lemma_intern_all_push(s_old.dependencies, xs.take(i as int).filter(f), xs[i as int]);
                }
            }
            i = i + 1;
        }
        proof {
            assert(xs.take(deps.len() as int) =~= xs);
        }
        self.analysis.set(p, Some(Analysis { metadata: mi, dependencies: refs }));
        index_map_insert(&mut self.published, mi, p);
        proof {
            let target = crate::model::spec_cache_analysis(s_old, p, m@, xs);
            assert(self@.analysis =~= target.analysis);
            assert(self@.metadata == target.metadata);
            assert(self@.dependencies == target.dependencies);
            assert(self@.published == target.published);
        }
    }

    /// Gets the analysis of package `p`: from the cache, from the response `resp` (which is
    /// then used up), or else by asking for it.
    pub fn fetch_analysis(&mut self, p: usize, resp: &mut Option<Response>) -> (r: Option<Action>)
        requires
            old(self).wf(),
        ensures
            final(self).wf(),
            final(self)@.dependencies.len() >= old(self)@.dependencies.len(),
            match crate::model::spec_fetch_analysis(old(self)@, p, resp_view(old(resp))) {
                crate::model::AnalysisFetch::Ready { s, analysis, resp: r2 } => {
                    &&& r is None
                    &&& final(self)@ == s
                    &&& resp_view(final(resp)) == r2
                    &&& p < final(self)@.analysis.len()
                    &&& final(self)@.analysis[p as int] == Some(analysis)
                },
                crate::model::AnalysisFetch::Stop(a) => {
                    &&& r matches Some(act) && act@ == a
                    &&& final(self)@ == old(self)@
                },
            },
    {
        if p >= self.packages.items.len() || p >= self.analysis.len() {
            return Some(Action::Abort(Abort::InvalidReference));
        }
        if self.analysis[p].is_some() {
            return None;
        }
        let taken = resp.take();
        match taken {
            None => Some(Action::Request(Request::Analysis { package: self.packages.get(p).clone() })),
            Some(Response::Analysis(Ok((m, deps)))) => {
                proof {
                    let s0 = self@;
                    let metadata = seq_intern(s0.metadata, m@);
                    let kept = deps@.map_values(|d: Dependency| d@).filter(|d: SpecDependency| crate::model::spec_analysis_keeps(s0, p, d));
                    lemma_intern_all_grows(s0.dependencies, kept);
                }
                self.cache_analysis(p, &m, &deps);
                None
            },
            Some(Response::Analysis(Err(e))) => Some(Action::Abort(Abort::AnalysisFailed(e))),
            Some(_) => Some(Action::Abort(Abort::UnexpectedResponse)),
        }
    }
}


/// How getting the versions to try for a dependant ended (see `VersionsStage`).
pub enum Staged {
    Ready,
    Failed(String),
    Stop(Action),
}

impl Solver {
    /// Gets the versions to try for `d` (named `name`) into the current frame.
    pub fn stage_versions(&mut self, d: Dependant, name: &String, resp: &mut Option<Response>) -> (r: Staged)
        requires
            old(self).wf(),
            d.1 < old(self)@.dependencies.len(),
        ensures
            final(self).wf(),
            match crate::model::spec_stage_versions(old(self)@, d, name@, resp_view(old(resp))) {
                crate::model::VersionsStage::Ready { s, resp: r2 } => {
                    &&& r is Ready
                    &&& final(self)@ == s
                    &&& resp_view(final(resp)) == r2
                },
                crate::model::VersionsStage::Failed(m) => r matches Staged::Failed(x) && x@ == m && final(self)@ == old(self)@,
                crate::model::VersionsStage::Stop(a) => r matches Staged::Stop(act) && act@ == a && final(self)@ == old(self)@,
            },
    {
        if self.current.remaining_versions.is_some() {
            return Staged::Ready;
        }
        let taken = resp.take();
        match taken {
            None => Staged::Stop(Action::Request(Request::Versions { name: name.clone() })),
            Some(Response::Versions(Ok(vs))) => {
                let ghost s_old = self@;
                let ghost xs = vs@.map_values(|v: String| v@);
                let ghost c = s_old.dependencies[d.1 as int].version;
                let ghost f = |v: Seq<char>| crate::version::spec_accepts(v, c);
                let mut refs = index_stack_new();
                let mut i: usize = 0;
                proof {
                    assert(xs.take(0).filter(f) =~= Seq::<Seq<char>>::empty()) by {
                        reveal(Seq::filter);
                    }
                }
                while i < vs.len()
                    invariant
                        self.wf(),
                        i <= vs.len(),
                        d.1 < self@.dependencies.len(),
                        xs == vs@.map_values(|v: String| v@),
                        c == self@.dependencies[d.1 as int].version,
                        f == (|v: Seq<char>| crate::version::spec_accepts(v, c)),
                        (self.versions.view_seq(), index_stack(refs)) == crate::model::spec_intern_all(s_old.versions, xs.take(i as int).filter(f)),
                        self@ == (SolverView { versions: self@.versions, ..s_old }),
                    decreases vs.len() - i,
                {
                    proof {
                        lemma_filter_take_step(xs, f, i as int);
                    }
                    let verdict = crate::version::matches(vs[i].as_str(), &self.dependencies[d.1]);
                    let keep = match verdict {
                        Ok(b) => b,
                        Err(_) => false,
                    };
                    assert(keep == f(xs[i as int]));
                    if keep {
                        let v = self.versions.intern(vs[i].as_str());
                        index_stack_push(&mut refs, v);
                        proof {
                            lemma_intern_all_push(s_old.versions, xs.take(i as int).filter(f), xs[i as int]);
                        }
                    }
                    i = i + 1;
                }
                proof {
                    assert(xs.take(vs.len() as int) =~= xs);
                }
                self.current.remaining_versions = Some(refs);
                Staged::Ready
            },
            Some(Response::Versions(Err(m))) => Staged::Failed(m),
            Some(_) => Staged::Stop(Action::Abort(Abort::UnexpectedResponse)),
        }
    }
}


/// A path table entry that is not the one looked up can be skipped.
pub proof fn lemma_path_lookup_skip(table: Seq<(Seq<char>, usize)>, path: Seq<char>, i: int)
    requires
        0 <= i < table.len(),
        table[i].0 != path,
    ensures
        crate::model::spec_path_lookup(table.skip(i), path) == crate::model::spec_path_lookup(table.skip(i + 1), path),
{
    assert(table.skip(i)[0] == table[i]);
    assert(table.skip(i).drop_first() =~= table.skip(i + 1));
}

/// How choosing a package for a dependant ended (see `Resolution`).
pub enum Resolved {
    Found { package: usize, pop: bool },
    Failed(SolveError),
    Skip,
    Stop(Action),
}

impl Solver {
    /// Whether `d` is a path dependency of a package that has a path table.
    pub fn is_path_dependency(&self, d: Dependant) -> (r: bool)
        requires
            d.1 < self@.dependencies.len(),
        ensures
            r == crate::model::spec_is_path_dependency(self@, d),
    {
        d.0 < self.path_dependencies.len() && self.path_dependencies[d.0].is_some()
            && self.dependencies[d.1].path.is_some()
    }

    /// The index of the metadata record `m`, if it is known.
    pub fn find_metadata(&self, m: &Metadata) -> (r: Option<usize>)
        ensures
            crate::dependency::opt_index(r) == seq_find(self@.metadata, m@),
    {
        proof {
            lemma_seq_find(self@.metadata, m@);
        }
        let mut i: usize = 0;
        while i < self.metadata.len()
            invariant
                i <= self.metadata.len(),
                forall|j: int| 0 <= j < i ==> self@.metadata[j] != m@,
            decreases self.metadata.len() - i,
        {
            if self.metadata[i].same(m) {
                proof {
                    assert(self@.metadata[i as int] == m@);
                    crate::dependency::lemma_seq_first_index(self@.metadata, m@, 0);
                    let f = crate::dependency::seq_first_index(self@.metadata, m@, 0);
                    if f < i {
                        assert(self@.metadata[f] == m@);
                    }
                }
                return Some(i);
            }
            i = i + 1;
        }
        proof {
            if self@.metadata.contains(m@) {
                let k = choose|k: int| 0 <= k < self@.metadata.len() && self@.metadata[k] == m@;
                assert(self@.metadata[k] != m@);
            }
        }
        None
    }

    /// The package recorded as published under the metadata `key`.
    pub fn published_package(&self, key: &Metadata) -> (r: Option<usize>)
        ensures
            r == crate::model::spec_published(self@, key@),
    {
        match self.find_metadata(key) {
            None => None,
            Some(i) => index_map_get(&self.published, i),
        }
    }

    /// The package that the path of dependency `d` maps to in the path table of its package.
    pub fn path_lookup(&self, d: Dependant) -> (r: Option<usize>)
        requires
            crate::model::spec_is_path_dependency(self@, d),
            d.1 < self@.dependencies.len(),
        ensures
            r == crate::model::spec_path_lookup(self@.path_dependencies[d.0 as int].unwrap(), self@.dependencies[d.1 as int].path.unwrap()),
    {
        let table = match &self.path_dependencies[d.0] {
            Some(t) => t,
            None => return None,
        };
        let path = match &self.dependencies[d.1].path {
            Some(p) => p,
            None => return None,
        };
        let ghost tv = table@.map_values(|e: (String, usize)| (e.0@, e.1));
        let mut i: usize = 0;
        proof {
            assert(tv.skip(0) =~= tv);
        }
        while i < table.len()
            invariant
                i <= table.len(),
                tv == table@.map_values(|e: (String, usize)| (e.0@, e.1)),
                tv == self@.path_dependencies[d.0 as int].unwrap(),
                path@ == self@.dependencies[d.1 as int].path.unwrap(),
                crate::model::spec_path_lookup(tv, path@) == crate::model::spec_path_lookup(tv.skip(i as int), path@),
            decreases table.len() - i,
        {
            if table[i].0 == *path {
                proof {
                    assert(tv.skip(i as int)[0] == tv[i as int]);
                }
                return Some(table[i].1);
            }
            proof {
                lemma_path_lookup_skip(tv, path@, i as int);
            }
            i = i + 1;
        }
        proof {
            assert(tv.skip(i as int) =~= Seq::<(Seq<char>, usize)>::empty());
        }
        None
    }

    /// Chooses a package for `d` (named `name`).
    pub fn try_resolve(&mut self, d: Dependant, name: &String, resp: &mut Option<Response>) -> (r: Resolved)
        requires
            old(self).wf(),
            d.1 < old(self)@.dependencies.len(),
            !crate::model::spec_is_path_dependency(old(self)@, d) ==> old(self)@.current.remaining_versions is Some,
        ensures
            final(self).wf(),
            match crate::model::spec_try_resolve(old(self)@, d, name@, resp_view(old(resp))) {
                crate::model::Resolution::Found { s, package, pop, resp: r2 } => {
                    &&& r matches Resolved::Found { package: p2, pop: q } && p2 == package && q == pop
                    &&& final(self)@ == s
                    &&& resp_view(final(resp)) == r2
                },
                crate::model::Resolution::Failed { s, error } => {
                    &&& r matches Resolved::Failed(e) && e@ == error
                    &&& final(self)@ == s
                },
                crate::model::Resolution::Stop(a) => {
                    &&& r matches Resolved::Stop(act) && act@ == a
                    &&& final(self)@ == old(self)@
                },
                crate::model::Resolution::Skip { s } => {
                    &&& r is Skip
                    &&& final(self)@ == s
                },
            },
    {
        if self.is_path_dependency(d) {
            return match self.path_lookup(d) {
                Some(p) => Resolved::Found { package: p, pop: false },
                None => Resolved::Failed(SolveError::PathDependencyNotFound { dependency: d.1 }),
            };
        }
        let rem = match &self.current.remaining_versions {
            Some(rem) => rem,
            None => return Resolved::Stop(Action::Abort(Abort::InvalidReference)),
        };
        let len = index_stack_len(rem);
        if len == 0 {
            return Resolved::Failed(SolveError::PackageVersionConflict);
        }
        let last = match index_stack_get(rem, len - 1) {
            Some(v) => v,
            None => return Resolved::Stop(Action::Abort(Abort::InvalidReference)),
        };
        if last >= self.versions.items.len() {
            return Resolved::Stop(Action::Abort(Abort::InvalidReference));
        }
        let version = self.versions.get(last).clone();
        let key = Metadata { name: Some(name.clone()), version: Some(version.clone()), description: None };
        if let Some(p) = self.published_package(&key) {
            return Resolved::Found { package: p, pop: true };
        }
        let taken = resp.take();
        match taken {
            None => Resolved::Stop(Action::Request(Request::Package { name: name.clone(), version })),
            Some(Response::Package(Ok(None))) => {
                let ghost s0 = self@;
                let mut rest = index_stack_clone(rem);
                index_stack_pop(&mut rest);
                self.current.remaining_versions = Some(rest);
                proof {
                    assert(self@.current == (FrameView { remaining_versions: Some(s0.current.remaining_versions.unwrap().drop_last()), ..s0.current }));
                }
                Resolved::Skip
            },
            Some(Response::Package(Ok(Some(id)))) => {
                let p = self.intern_package(id.as_str());
                let mi = self.intern_metadata(&key);
                index_map_insert(&mut self.published, mi, p);
                Resolved::Found { package: p, pop: true }
            },
            Some(Response::Package(Err(e))) => Resolved::Failed(SolveError::Other(e)),
            Some(_) => Resolved::Stop(Action::Abort(Abort::UnexpectedResponse)),
        }
    }
}


/// `n` copies of the cycle error for `d`.
pub open spec fn cycle_errors(d: Dependant, n: nat) -> Seq<SpecError> {
    Seq::new(n, |k: int| SpecError::PackageCycleExists { dependant: d })
}

impl Solver {
    /// Marks `d` permanently with `o` in `solution` (see `spec_mark_perm`).
    pub fn mark_perm(&mut self, solution: &Solution, d: Dependant, o: Outcome) -> (r: Option<Solution>)
        requires
            old(self).wf(),
            d.1 < old(self)@.dependencies.len(),
        ensures
            final(self).wf(),
            match crate::model::spec_mark_perm(old(self)@, solution@, d, o) {
                None => r is None && final(self)@ == old(self)@,
                Some((s2, sol)) => r matches Some(x) && x@ == sol && final(self)@ == s2,
            },
    {
        if self.is_path_dependency(d) {
            return Some(solution.mark_permanently(d, None, o));
        }
        let n = match &self.dependencies[d.1].name {
            None => return None,
            Some(n) => n.clone(),
        };
        let i = self.names.intern(n.as_str());
        Some(solution.mark_permanently(d, Some(i), o))
    }

    /// Whether the saved frame `h` chose a package for `name` (see `frame_chose`).
    fn frame_chose(&self, h: usize, name: &String) -> (r: bool)
        requires
            self.wf(),
        ensures
            r == crate::model::frame_chose(self@, h, name@),
    {
        if h >= self.frames.len() {
            return false;
        }
        proof {
            assert(self@.frames[h as int] == self.frames@[h as int]@);
        }
        match self.frames[h].next_dependant() {
            None => false,
            Some((_, d)) => {
                if d.1 >= self.dependencies.len() {
                    return false;
                }
                let named = match &self.dependencies[d.1].name {
                    Some(n) => *n == *name,
                    None => false,
                };
                named && !self.is_path_dependency(d)
            },
        }
    }

    /// The frame to backtrack to for the package `name`, with `error` as its last error, and
    /// its position in the history (see `spec_try_backtrack`).
    pub fn try_backtrack(&self, name: &String, error: usize) -> (r: Option<(Frame, usize)>)
        requires
            self.wf(),
        ensures
            match crate::model::spec_try_backtrack(self@, name@, error) {
                None => r is None,
                Some((f, k)) => r matches Some((x, j)) && x@ == f && j as int == k,
            },
    {
        let len = index_stack_len(&self.history);
        let mut j: usize = len;
        while j > 0
            invariant
                j <= len,
                len == self@.history.len(),
                self.wf(),
                crate::model::spec_chooser_index(self@, name@, len as int) == crate::model::spec_chooser_index(self@, name@, j as int),
            decreases j,
        {
            let h = match index_stack_get(&self.history, j - 1) {
                Some(h) => h,
                None => return None,
            };
            if self.frame_chose(h, name) {
                let mut f = self.frames[h].duplicate();
                f.last_error = Some(error);
                proof {
                    assert(self@.frames[h as int] == self.frames@[h as int]@);
                    assert(self@.history[j - 1] == h);
                    assert(crate::model::spec_chooser_index(self@, name@, j as int) == j - 1);
                }
                return Some((f, j - 1));
            }
            j = j - 1;
        }
        None
    }

    /// Ends the step by marking `d` permanently with `o` in `next`, which becomes current.
    pub fn finish_permanently(&mut self, next: Frame, d: Dependant, o: Outcome) -> (r: Action)
        requires
            old(self).wf(),
            d.1 < old(self)@.dependencies.len(),
        ensures
            final(self).wf(),
            (final(self)@, r@) == crate::model::spec_finish_permanently(old(self)@, next@, d, o),
    {
        match self.mark_perm(&next.solution, d, o) {
            None => Action::Abort(Abort::MissingName),
            Some(solution) => {
                self.current = Frame { solution, ..next };
                Action::Continue
            },
        }
    }

    /// Ends the step after the error at index `e`: backtracks if it can, or else marks `d`
    /// with the error.
    pub fn finish_with_backtrack(&mut self, next: Frame, d: Dependant, e: usize) -> (r: Action)
        requires
            old(self).wf(),
            d.1 < old(self)@.dependencies.len(),
        ensures
            final(self).wf(),
            (final(self)@, r@) == crate::model::spec_finish_with_backtrack(old(self)@, next@, d, old(self)@.dependencies[d.1 as int].name, e),
    {
        let name = match &self.dependencies[d.1].name {
            None => return Action::Abort(Abort::MissingName),
            Some(n) => n.clone(),
        };
        match self.try_backtrack(&name, e) {
            Some((f, k)) => {
                let ghost s0 = self@;
                let ghost h0 = s0.history;
                let mut n = index_stack_len(&self.history);
                proof {
                    crate::laws::lemma_chooser_index(s0, name@, h0.len() as int);
                    assert(h0.take(h0.len() as int) =~= h0);
                }
                while n > k
                    invariant
                        k <= n <= h0.len(),
                        n == index_stack(self.history).len(),
                        index_stack(self.history) == h0.take(n as int),
                        self@ == (SolverView { history: h0.take(n as int), ..s0 }),
                        self.wf(),
                    decreases n,
                {
                    index_stack_pop(&mut self.history);
                    proof {
                        assert(h0.take(n as int).drop_last() =~= h0.take(n - 1));
                    }
                    n = n - 1;
                }
                self.current = f;
                Action::Continue
            },
            None => self.finish_permanently(next, d, Outcome::Failed(e)),
        }
    }

    /// Checks the children of `p` against the marks of `solution` (see `spec_scan_children`);
    /// the cycle errors are stored on success.
    pub fn scan_children(&mut self, solution: &Solution, p: usize, children: &Vec<usize>, d: Dependant) -> (r: Option<Vec<(usize, usize)>>)
        requires
            old(self).wf(),
        ensures
            final(self).wf(),
            match crate::model::spec_scan_children(old(self)@.errors, solution@.partial, p, children@, d) {
                None => r is None && final(self)@ == old(self)@,
                Some((errors, acc)) => r matches Some(x) && x@ == acc && final(self)@ == (SolverView { errors, ..old(self)@ }),
            },
    {
        let ghost s_old = self@;
        let base = self.errors.len();
        let mut acc: Vec<(usize, usize)> = Vec::new();
        let mut i: usize = 0;
        proof {
            assert(children@.take(0) =~= Seq::<usize>::empty());
            assert(self@.errors =~= s_old.errors + cycle_errors(d, 0));
        }
        while i < children.len()
            invariant
                self.wf(),
                s_old == old(self)@,
                i <= children.len(),
                base == s_old.errors.len(),
                self.errors.len() >= base,
                self@ == (SolverView { errors: self@.errors, ..s_old }),
                self@.errors == s_old.errors + cycle_errors(d, (self.errors.len() - base) as nat),
                crate::model::spec_scan_children(s_old.errors, solution@.partial, p, children@.take(i as int), d)
                    == Some((self@.errors, acc@)),
            decreases children.len() - i,
        {
            let c = children[i];
            proof {
                assert(children@.take(i + 1).drop_last() =~= children@.take(i as int));
                assert(children@.take(i + 1).last() == c);
            }
            match solution.get_partial((p, c)) {
                None => {
                    let ghost ev = self.errors@;
                    self.errors.truncate(base);
                    proof {
                        assert(self.errors@ =~= ev.subrange(0, base as int));
                        assert forall|k: int| 0 <= k < base implies self@.errors[k] == s_old.errors[k] by {
                            assert(self@.errors[k] == ev[k]@);
                            assert((s_old.errors + cycle_errors(d, (ev.len() - base) as nat))[k] == s_old.errors[k]);
                        }
                        assert(self@.errors =~= s_old.errors);
                        assert(self@ == s_old);
                        assert(!solution@.partial.contains_key((p, c)));
                        assert(crate::model::spec_scan_children(s_old.errors, solution@.partial, p, children@.take(i as int + 1), d) is None);
                        crate::solve::lemma_scan_none_extends(s_old.errors, solution@.partial, p, children@, d, i as int + 1);
                    }
                    return None;
                },
                Some(Mark::Permanent(Outcome::Resolved(_))) => {},
                Some(Mark::Permanent(Outcome::Failed(x))) => {
                    acc.push((c, x));
                },
                Some(Mark::Temporary(_)) => {
                    let k = self.errors.len();
                    acc.push((c, k));
                    let ghost before = self@.errors;
                    self.errors.push(SolveError::PackageCycleExists { dependant: d });
                    proof {
                        assert(self@.errors =~= before.push(SpecError::PackageCycleExists { dependant: d }));
                        assert(before.push(SpecError::PackageCycleExists { dependant: d })
                            =~= s_old.errors + cycle_errors(d, (self.errors.len() - base) as nat));
                    }
                },
            }
            i = i + 1;
        }
        proof {
            assert(children@.take(children.len() as int) =~= children@);
        }
        Some(acc)
    }
}

/// Once the scan of a prefix of the children fails, the scan of every longer prefix fails.
pub proof fn lemma_scan_none_extends(errors: Seq<SpecError>, partial: Map<Dependant, Mark>, p: usize, children: Seq<usize>, d: Dependant, i: int)
    requires
        0 <= i <= children.len(),
        crate::model::spec_scan_children(errors, partial, p, children.take(i), d) is None,
    ensures
        crate::model::spec_scan_children(errors, partial, p, children, d) is None,
    decreases children.len() - i,
{
    if i < children.len() {
        assert(children.take(i + 1).drop_last() =~= children.take(i));
        lemma_scan_none_extends(errors, partial, p, children, d, i + 1);
    } else {
        assert(children.take(i) =~= children);
    }
}


/// A copy of a vector of indices.
pub fn copy_indices(v: &Vec<usize>) -> (r: Vec<usize>)
    ensures
        r@ == v@,
{
    let mut r: Vec<usize> = Vec::new();
    let mut i: usize = 0;
    while i < v.len()
        invariant
            i <= v.len(),
            r@ == v@.take(i as int),
        decreases v.len() - i,
    {
        r.push(v[i]);
        proof {
            assert(v@.take(i + 1) =~= v@.take(i as int).push(v@[i as int]));
        }
        i = i + 1;
    }
    proof {
        assert(v@.take(v.len() as int) =~= v@);
    }
    r
}

impl Solver {
    /// The outcome settled for the package name of `d` in the current frame.
    pub fn get_permanent(&self, d: Dependant) -> (r: Option<Outcome>)
        requires
            d.1 < self@.dependencies.len(),
        ensures
            r == crate::model::spec_get_permanent(self@, self@.current.solution, d),
    {
        if self.is_path_dependency(d) {
            return None;
        }
        let name = match &self.dependencies[d.1].name {
            None => return None,
            Some(n) => n,
        };
        match self.names.find(name.as_str()) {
            None => None,
            Some(i) => self.current.solution.get_permanent(i),
        }
    }

    /// Commits the choice of package `p` for `d` (see `spec_commit_choice`).
    pub fn commit_choice(&mut self, next: Frame, d: Dependant, p: usize, pop: bool)
        requires
            old(self).wf(),
            p < old(self)@.analysis.len(),
            old(self)@.analysis[p as int] is Some,
            pop ==> old(self)@.current.remaining_versions is Some && old(self)@.current.remaining_versions.unwrap().len() > 0,
        ensures
            final(self).wf(),
            final(self)@ == crate::model::spec_commit_choice(old(self)@, next@, d, p, pop, old(self)@.analysis[p as int].unwrap()),
    {
        let ghost a = self@.analysis[p as int].unwrap();
        let mut working_set = next.working_set;
        pair_stack_push(&mut working_set, d);
        let ghost base = pair_stack(working_set);
        match &self.analysis[p] {
            Some(analysis) => {
                let children = &analysis.dependencies;
                let mut i: usize = 0;
                proof {
                    assert(base + crate::model::children_dependants(p, children@.take(0)) =~= base);
                }
                while i < children.len()
                    invariant
                        i <= children.len(),
                        children@ == a.dependencies,
                        pair_stack(working_set) == base + crate::model::children_dependants(p, children@.take(i as int)),
                    decreases children.len() - i,
                {
                    pair_stack_push(&mut working_set, (p, children[i]));
                    proof {
                        assert(children@.take(i + 1) =~= children@.take(i as int).push(children@[i as int]));
                        assert(base + crate::model::children_dependants(p, children@.take(i + 1))
                            =~= (base + crate::model::children_dependants(p, children@.take(i as int))).push((p, children@[i as int])));
                    }
                    i = i + 1;
                }
                proof {
                    assert(children@.take(children.len() as int) =~= children@);
                }
            },
            None => {},
        }
        let mut saved = self.current.duplicate();
        if pop {
            match &mut saved.remaining_versions {
                Some(rem) => {
                    index_stack_pop(rem);
                },
                None => {},
            }
        }
        let solution = next.solution.mark_temporarily(d, p).mark_temporarily(d, p);
        let idx = self.frames.len();
        self.frames.push(saved);
        index_stack_push(&mut self.history, idx);
        self.current = Frame { solution, working_set, remaining_versions: None, last_error: None };
        proof {
            let target = crate::model::spec_commit_choice(old(self)@, next@, d, p, pop, a);
            assert(self.frames@.last()@ == target.frames.last());
            assert(self@.frames =~= target.frames);
            assert(self@.current == target.current);
        }
    }

    /// The version that the metadata of the analysis of `p` declares (see `spec_analysis_version`).
    pub fn analysis_version(&self, p: usize) -> (r: Result<Option<String>, ()>)
        requires
            p < self@.analysis.len(),
            self@.analysis[p as int] is Some,
        ensures
            match crate::model::spec_analysis_version(self@, self@.analysis[p as int].unwrap()) {
                None => r is Err,
                Some(v) => r matches Ok(x) && opt_view(&x) == v,
            },
    {
        let mi = match &self.analysis[p] {
            Some(a) => a.metadata,
            None => return Err(()),
        };
        if mi >= self.metadata.len() {
            return Err(());
        }
        Ok(crate::dependency::opt_string_clone(&self.metadata[mi].version))
    }

    /// A dependant that has a package name with an outcome (see `spec_case_settled`).
    pub fn case_settled(&mut self, next: Frame, d: Dependant, o: Outcome, resp: &mut Option<Response>) -> (r: Action)
        requires
            old(self).wf(),
            d.1 < old(self)@.dependencies.len(),
        ensures
            final(self).wf(),
            (final(self)@, r@) == crate::model::spec_case_settled(old(self)@, next@, d, o, resp_view(old(resp))),
    {
        match o {
            Outcome::Failed(e) => self.finish_permanently(next, d, Outcome::Failed(e)),
            Outcome::Resolved(p) => {
                if let Some(a) = self.fetch_analysis(p, resp) {
                    return a;
                }
                let version = match self.analysis_version(p) {
                    Err(()) => return Action::Abort(Abort::InvalidReference),
                    Ok(None) => return Action::Abort(Abort::MissingVersion),
                    Ok(Some(v)) => v,
                };
                match crate::version::matches(version.as_str(), &self.dependencies[d.1]) {
                    Ok(true) => self.finish_permanently(next, d, Outcome::Resolved(p)),
                    Ok(false) => {
                        let e = self.errors.len();
                        let ghost s2 = self@;
                        self.errors.push(SolveError::PackageVersionConflict);
                        proof {
                            assert(self@.errors =~= s2.errors.push(SpecError::PackageVersionConflict));
                            assert(self@ == crate::model::with_error(s2, SpecError::PackageVersionConflict));
                        }
                        self.finish_with_backtrack(next, d, e)
                    },
                    Err(m) => {
                        let e = self.errors.len();
                        let ghost s2 = self@;
                        let ghost ev = SpecError::Other(m@);
                        self.errors.push(SolveError::Other(m));
                        proof {
                            assert(self@.errors =~= s2.errors.push(ev));
                            assert(self@ == crate::model::with_error(s2, ev));
                        }
                        self.finish_permanently(next, d, Outcome::Failed(e))
                    },
                }
            },
        }
    }
}


impl Solver {
    /// A dependant tentatively marked with package `p` (see `spec_case_tentative`).
    pub fn case_tentative(&mut self, next: Frame, d: Dependant, p: usize, resp: &mut Option<Response>) -> (r: Action)
        requires
            old(self).wf(),
            d.1 < old(self)@.dependencies.len(),
        ensures
            final(self).wf(),
            (final(self)@, r@) == crate::model::spec_case_tentative(old(self)@, next@, d, p, resp_view(old(resp))),
    {
        if let Some(a) = self.fetch_analysis(p, resp) {
            return a;
        }
        let children = match &self.analysis[p] {
            Some(a) => copy_indices(&a.dependencies),
            None => return Action::Abort(Abort::InvalidReference),
        };
        let erroneous = match self.scan_children(&next.solution, p, &children, d) {
            None => return Action::Abort(Abort::MissingMark),
            Some(x) => x,
        };
        if erroneous.len() == 0 {
            return self.finish_permanently(next, d, Outcome::Resolved(p));
        }
        let version = match self.analysis_version(p) {
            Err(()) => return Action::Abort(Abort::InvalidReference),
            Ok(None) => return Action::Abort(Abort::MissingVersion),
            Ok(Some(v)) => v,
        };
        let e = self.errors.len();
        let ghost s3 = self@;
        let ghost err = SpecError::Backtrack { package: p, previous_version: version@, erroneous_dependencies: erroneous@ };
        self.errors.push(SolveError::Backtrack { package: p, previous_version: version, erroneous_dependencies: erroneous });
        proof {
            assert(self@.errors =~= s3.errors.push(err));
            assert(self@ == crate::model::with_error(s3, err));
        }
        self.finish_with_backtrack(next, d, e)
    }

    /// A dependant with no mark and no settled outcome (see `spec_case_new`).
    pub fn case_new(&mut self, next: Frame, d: Dependant, resp: &mut Option<Response>) -> (r: Action)
        requires
            old(self).wf(),
            d.1 < old(self)@.dependencies.len(),
        ensures
            final(self).wf(),
            (final(self)@, r@) == crate::model::spec_case_new(old(self)@, next@, d, resp_view(old(resp))),
    {
        let name = match &self.dependencies[d.1].name {
            None => return Action::Abort(Abort::MissingName),
            Some(n) => n.clone(),
        };
        match self.stage_versions(d, &name, resp) {
            Staged::Stop(a) => return a,
            Staged::Failed(m) => {
                let e = self.errors.len();
                let ghost s2 = self@;
                let ghost ev = SpecError::Other(m@);
                self.errors.push(SolveError::Other(m));
                proof {
                    assert(self@.errors =~= s2.errors.push(ev));
                    assert(self@ == crate::model::with_error(s2, ev));
                }
                return self.finish_permanently(next, d, Outcome::Failed(e));
            },
            Staged::Ready => {},
        }
        match self.try_resolve(d, &name, resp) {
            Resolved::Stop(a) => a,
            Resolved::Skip => Action::Continue,
            Resolved::Failed(err) => {
                if matches!(err, SolveError::PackageVersionConflict) {
                    if let Some(le) = self.current.last_error {
                        return self.finish_permanently(next, d, Outcome::Failed(le));
                    }
                }
                let e = self.errors.len();
                let ghost s2 = self@;
                let ghost ev = err@;
                self.errors.push(err);
                proof {
                    assert(self@.errors =~= s2.errors.push(ev));
                    assert(self@ == crate::model::with_error(s2, ev));
                }
                self.finish_permanently(next, d, Outcome::Failed(e))
            },
            Resolved::Found { package, pop } => {
                if let Some(a) = self.fetch_analysis(package, resp) {
                    return a;
                }
                self.commit_choice(next, d, package, pop);
                Action::Continue
            },
        }
    }

    /// Runs one step of the search (see `spec_step`); `resp` answers the request of the
    /// previous step.
    pub fn step(&mut self, resp: Option<Response>) -> (r: Action)
        requires
            old(self).wf(),
        ensures
            final(self).wf(),
            (final(self)@, r@) == crate::model::spec_step(old(self)@, resp_view(&resp)),
    {
        let mut resp = resp;
        let (working_set, d) = match self.current.next_dependant() {
            None => return Action::Done,
            Some(x) => x,
        };
        if d.0 >= self.packages.items.len() || d.1 >= self.dependencies.len() {
            return Action::Abort(Abort::InvalidReference);
        }
        let next = Frame {
            solution: self.current.solution.duplicate(),
            working_set,
            remaining_versions: None,
            last_error: None,
        };
        match self.current.solution.get_partial(d) {
            Some(Mark::Permanent(_)) => {
                self.current = next;
                Action::Continue
            },
            Some(Mark::Temporary(p)) => self.case_tentative(next, d, p, &mut resp),
            None => match self.get_permanent(d) {
                Some(o) => self.case_settled(next, d, o, &mut resp),
                None => self.case_new(next, d, &mut resp),
            },
        }
    }
}

} // verus!
