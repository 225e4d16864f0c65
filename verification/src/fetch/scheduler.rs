//! Which metadata fetches run.
use crate::str_map::StrSet;
use crate::text::{opt_text, same_text};
use vstd::prelude::*;

verus! {

/// What is fetched: all versions of a package, or one.
#[derive(Debug, PartialEq, Eq)]
pub enum FetchKey {
    Full(String),
    Exact(String, String),
}

/// What is fetched.
pub enum KeyView {
    Full(Seq<char>),
    Exact(Seq<char>, Seq<char>),
}

impl View for FetchKey {
    type V = KeyView;

    open spec fn view(&self) -> KeyView {
        match self {
            FetchKey::Full(name) => KeyView::Full(name@),
            FetchKey::Exact(name, version) => KeyView::Exact(name@, version@),
        }
    }
}

impl FetchKey {
    /// Whether two keys are the same.
    pub fn same(&self, other: &FetchKey) -> (r: bool)
        ensures
            r == (self@ == other@),
    {
        match (self, other) {
            (FetchKey::Full(a), FetchKey::Full(b)) => same_text(a.as_str(), b.as_str()),
            (FetchKey::Exact(a, v), FetchKey::Exact(b, w)) => same_text(a.as_str(), b.as_str()) && same_text(
                v.as_str(),
                w.as_str(),
            ),
            _ => false,
        }
    }

    /// A copy of the key.
    pub fn copy(&self) -> (r: FetchKey)
        ensures
            r@ == self@,
    {
        match self {
            FetchKey::Full(a) => FetchKey::Full(a.clone()),
            FetchKey::Exact(a, v) => FetchKey::Exact(a.clone(), v.clone()),
        }
    }
}

/// The keys of a list.
pub open spec fn key_views(keys: Seq<FetchKey>) -> Seq<KeyView> {
    keys.map_values(|k: FetchKey| k@)
}

/// The tasks of a list, by their ids.
pub open spec fn task_map(tasks: Seq<(u64, FetchKey)>) -> Map<u64, KeyView>
    decreases tasks.len(),
{
    if tasks.len() == 0 {
        Map::empty()
    } else {
        task_map(tasks.drop_last()).insert(tasks.last().0, tasks.last().1@)
    }
}

/// No two tasks of the list have the same id.
pub open spec fn ids_distinct(tasks: Seq<(u64, FetchKey)>) -> bool {
    forall|i: int, j: int| 0 <= i < j < tasks.len() ==> (#[trigger] tasks[i]).0 != (#[trigger] tasks[j]).0
}

/// What the tasks of a list with distinct ids map to.
proof fn lemma_task_map(tasks: Seq<(u64, FetchKey)>)
    requires
        ids_distinct(tasks),
    ensures
        forall|i: int|
            0 <= i < tasks.len() ==> task_map(tasks).contains_key((#[trigger] tasks[i]).0)
                && task_map(tasks)[tasks[i].0] == tasks[i].1@,
        forall|id: u64| #[trigger]
            task_map(tasks).contains_key(id) ==> exists|i: int| 0 <= i < tasks.len() && (#[trigger] tasks[i]).0 == id,
        task_map(tasks).dom().finite(),
        task_map(tasks).dom().len() == tasks.len(),
    decreases tasks.len(),
{
    if tasks.len() > 0 {
        let rest = tasks.drop_last();
        assert forall|i: int, j: int| 0 <= i < j < rest.len() implies (#[trigger] rest[i]).0 != (
        #[trigger] rest[j]).0 by {
            assert(tasks[i].0 != tasks[j].0);
        }
        lemma_task_map(rest);
        let last = tasks.last();
        assert(!task_map(rest).contains_key(last.0)) by {
            if task_map(rest).contains_key(last.0) {
                let i = choose|i: int| 0 <= i < rest.len() && (#[trigger] rest[i]).0 == last.0;
                assert(tasks[i].0 != tasks[tasks.len() - 1].0);
            }
        }
        assert forall|i: int| 0 <= i < tasks.len() implies task_map(tasks).contains_key((#[trigger] tasks[i]).0)
            && task_map(tasks)[tasks[i].0] == tasks[i].1@ by {
            if i < rest.len() {
                assert(rest[i] == tasks[i]);
                assert(tasks[i].0 != tasks[tasks.len() - 1].0);
            }
        }
        assert forall|id: u64| #[trigger] task_map(tasks).contains_key(id) implies exists|i: int|
            0 <= i < tasks.len() && (#[trigger] tasks[i]).0 == id by {
            if id == last.0 {
                assert(tasks[tasks.len() - 1].0 == id);
            } else {
                let i = choose|i: int| 0 <= i < rest.len() && (#[trigger] rest[i]).0 == id;
                assert(tasks[i].0 == id);
            }
        }
        assert(task_map(tasks).dom() =~= task_map(rest).dom().insert(last.0));
    } else {
        assert(task_map(tasks).dom() =~= Set::<u64>::empty());
    }
}

/// What every fetch goes by.
#[derive(Debug)]
pub struct FetchSettings {
    /// Where abbreviated documents are kept.
    pub cache_dir: Option<String>,
    /// Where full documents are kept.
    pub full_cache_dir: Option<String>,
    /// Use the bundled documents for every registry.
    pub force_metadata_primer: bool,
    /// Publish times are needed, so full documents are.
    pub needs_time: bool,
}

/// What one fetch goes by.
#[derive(Debug)]
pub struct FetchInputs {
    pub name: String,
    pub cache_dir: Option<String>,
    pub full_cache_dir: Option<String>,
    /// The bundled document is recent enough.
    pub primer_covers_cutoff: bool,
    pub force_metadata_primer: bool,
    pub needs_time: bool,
    /// Do not trust a full document that is kept on disk.
    pub force_refresh: bool,
}

/// What one fetch goes by.
pub struct InputsView {
    pub name: Seq<char>,
    pub cache_dir: Option<Seq<char>>,
    pub full_cache_dir: Option<Seq<char>>,
    pub primer_covers_cutoff: bool,
    pub force_metadata_primer: bool,
    pub needs_time: bool,
    pub force_refresh: bool,
}

impl View for FetchInputs {
    type V = InputsView;

    open spec fn view(&self) -> InputsView {
        InputsView {
            name: self.name@,
            cache_dir: opt_text(self.cache_dir),
            full_cache_dir: opt_text(self.full_cache_dir),
            primer_covers_cutoff: self.primer_covers_cutoff,
            force_metadata_primer: self.force_metadata_primer,
            needs_time: self.needs_time,
            force_refresh: self.force_refresh,
        }
    }
}

/// What a fetch of a package goes by. A package that is excluded by its name
/// needs no publish times; without a cutoff no package does.
pub open spec fn inputs_for(
    settings: FetchSettings,
    name: Seq<char>,
    name_is_excluded: bool,
    published_by: Option<Seq<char>>,
    primer_is_recent: bool,
    force_refresh: bool,
) -> InputsView {
    InputsView {
        name,
        cache_dir: opt_text(settings.cache_dir),
        full_cache_dir: opt_text(settings.full_cache_dir),
        primer_covers_cutoff: name_is_excluded || published_by is None || primer_is_recent,
        force_metadata_primer: settings.force_metadata_primer,
        needs_time: settings.needs_time,
        force_refresh,
    }
}

/// The fetches that run.
#[derive(Debug)]
pub struct FetchScheduler {
    settings: FetchSettings,
    active: Vec<FetchKey>,
    tasks: Vec<(u64, FetchKey)>,
    primer_seeded: StrSet,
}

/// The fetches that run.
#[verifier::ext_equal]
pub struct SchedulerView {
    /// What is being fetched.
    pub active: Set<KeyView>,
    /// What each task that has not been joined fetches.
    pub tasks: Map<u64, KeyView>,
    /// The packages whose document came with the program.
    pub primer_seeded: Set<Seq<char>>,
}

impl View for FetchScheduler {
    type V = SchedulerView;

    closed spec fn view(&self) -> SchedulerView {
        SchedulerView {
            active: key_views(self.active@).to_set(),
            tasks: task_map(self.tasks@),
            primer_seeded: self.primer_seeded@,
        }
    }
}

/// After a fetch was asked for.
pub open spec fn after_request(s: SchedulerView, key: KeyView) -> SchedulerView {
    SchedulerView { active: s.active.insert(key), ..s }
}

/// After the task of a fetch was started.
pub open spec fn after_start(s: SchedulerView, id: u64, key: KeyView) -> SchedulerView {
    SchedulerView { tasks: s.tasks.insert(id, key), ..s }
}

/// After a task was joined: with the key that it gives back, or after it was lost.
pub open spec fn after_join(s: SchedulerView, id: u64, finished: Option<KeyView>) -> SchedulerView {
    let released = match finished {
        Some(key) => Some(key),
        None => if s.tasks.contains_key(id) {
            Some(s.tasks[id])
        } else {
            None
        },
    };
    SchedulerView {
        active: match released {
            Some(key) => s.active.remove(key),
            None => s.active,
        },
        tasks: s.tasks.remove(id),
        ..s
    }
}

/// A copy of an optional text.
fn copy_opt(t: &Option<String>) -> (r: Option<String>)
    ensures
        opt_text(r) == opt_text(*t),
{
    match t {
        Some(s) => Some(s.clone()),
        None => None,
    }
}

/// Where a key stands in a list.
fn find_key(keys: &Vec<FetchKey>, key: &FetchKey) -> (r: Option<usize>)
    ensures
        match r {
            Some(i) => i < keys@.len() && key_views(keys@)[i as int] == key@,
            None => !key_views(keys@).contains(key@),
        },
{
    let total = keys.len();
    let mut i: usize = 0;
    while i < total
        invariant
            i <= total,
            total == keys@.len(),
            forall|j: int| 0 <= j < i ==> #[trigger] key_views(keys@)[j] != key@,
        decreases total - i,
    {
        if keys[i].same(key) {
            return Some(i);
        }
        i += 1;
    }
    None
}

/// Where a task stands in a list.
fn find_task(tasks: &Vec<(u64, FetchKey)>, id: u64) -> (r: Option<usize>)
    ensures
        match r {
            Some(i) => i < tasks@.len() && tasks@[i as int].0 == id,
            None => forall|i: int| 0 <= i < tasks@.len() ==> (#[trigger] tasks@[i]).0 != id,
        },
{
    let total = tasks.len();
    let mut i: usize = 0;
    while i < total
        invariant
            i <= total,
            total == tasks@.len(),
            forall|j: int| 0 <= j < i ==> (#[trigger] tasks@[j]).0 != id,
        decreases total - i,
    {
        if tasks[i].0 == id {
            return Some(i);
        }
        i += 1;
    }
    None
}

/// Taking a task out of a list takes it out of the map.
proof fn lemma_task_removed(tasks: Seq<(u64, FetchKey)>, i: int)
    requires
        ids_distinct(tasks),
        0 <= i < tasks.len(),
    ensures
        ids_distinct(tasks.remove(i)),
        task_map(tasks.remove(i)) == task_map(tasks).remove(tasks[i].0),
{
    let rest = tasks.remove(i);
    assert forall|a: int, b: int| 0 <= a < b < rest.len() implies (#[trigger] rest[a]).0 != (#[trigger] rest[b]).0 by {
        let x = if a < i {
            a
        } else {
            a + 1
        };
        let y = if b < i {
            b
        } else {
            b + 1
        };
        assert(tasks[x].0 != tasks[y].0);
    }
    lemma_task_map(tasks);
    lemma_task_map(rest);
    let was = task_map(tasks).remove(tasks[i].0);
    let now = task_map(rest);
    assert forall|id: u64| was.contains_key(id) <==> now.contains_key(id) by {
        if was.contains_key(id) {
            let a = choose|a: int| 0 <= a < tasks.len() && (#[trigger] tasks[a]).0 == id;
            let b = if a < i {
                a
            } else {
                a - 1
            };
            assert(rest[b] == tasks[a]);
        }
        if now.contains_key(id) {
            let b = choose|b: int| 0 <= b < rest.len() && (#[trigger] rest[b]).0 == id;
            let a = if b < i {
                b
            } else {
                b + 1
            };
            assert(rest[b] == tasks[a]);
            assert(tasks[a].0 != tasks[i].0) by {
                if a < i {
                    assert(tasks[a].0 != tasks[i].0);
                } else {
                    assert(tasks[i].0 != tasks[a].0);
                }
            }
        }
    }
    assert forall|id: u64| was.contains_key(id) implies was[id] == now[id] by {
        let a = choose|a: int| 0 <= a < tasks.len() && (#[trigger] tasks[a]).0 == id;
        let b = if a < i {
            a
        } else {
            a - 1
        };
        assert(rest[b] == tasks[a]);
    }
    assert(now =~= was);
}

/// Taking a key out of a list without duplicates takes it out of the set.
proof fn lemma_key_removed(keys: Seq<FetchKey>, i: int)
    requires
        key_views(keys).no_duplicates(),
        0 <= i < keys.len(),
    ensures
        key_views(keys.remove(i)).no_duplicates(),
        key_views(keys.remove(i)).to_set() == key_views(keys).to_set().remove(key_views(keys)[i]),
{
    let was = key_views(keys);
    let now = key_views(keys.remove(i));
    assert(now =~= was.remove(i));
    assert forall|k: KeyView| now.contains(k) <==> was.contains(k) && k != was[i] by {
        if now.contains(k) {
            let b = choose|b: int| 0 <= b < now.len() && now[b] == k;
            let a = if b < i {
                b
            } else {
                b + 1
            };
            assert(was[a] == k);
        }
        if was.contains(k) && k != was[i] {
            let a = choose|a: int| 0 <= a < was.len() && was[a] == k;
            let b = if a < i {
                a
            } else {
                a - 1
            };
            assert(now[b] == k);
        }
    }
    assert(now.to_set() =~= was.to_set().remove(was[i]));
}

impl FetchScheduler {
    /// What every fetch goes by.
    pub closed spec fn goes_by(self) -> FetchSettings {
        self.settings
    }

    #[verifier::type_invariant]
    spec fn holds(self) -> bool {
        &&& key_views(self.active@).no_duplicates()
        &&& ids_distinct(self.tasks@)
    }

    /// Nothing runs.
    pub fn new(settings: FetchSettings) -> (r: FetchScheduler)
        ensures
            r.goes_by() == settings,
            r@ == (SchedulerView {
                active: Set::empty(),
                tasks: Map::empty(),
                primer_seeded: Set::empty(),
            }),
    {
        let r = FetchScheduler { settings, active: Vec::new(), tasks: Vec::new(), primer_seeded: StrSet::new() };
        proof {
            assert(key_views(r.active@) =~= Seq::<KeyView>::empty());
            assert(r@.active =~= Set::<KeyView>::empty());
        }
        r
    }

    /// How many tasks have not been joined.
    pub fn in_flight_count(&self) -> (r: usize)
        ensures
            r == self@.tasks.dom().len(),
            self@.tasks.dom().finite(),
    {
        proof {
            use_type_invariant(self);
            lemma_task_map(self.tasks@);
        }
        self.tasks.len()
    }

    /// Whether there is a task to wait for; without one nothing can be joined.
    pub fn has_task(&self) -> (r: bool)
        ensures
            r == (self@.tasks.dom().len() > 0),
            r == (self@.tasks != Map::<u64, KeyView>::empty()),
            self@.tasks.dom().finite(),
    {
        proof {
            use_type_invariant(self);
            lemma_task_map(self.tasks@);
            if self.tasks@.len() == 0 {
                assert(self@.tasks =~= Map::<u64, KeyView>::empty());
            } else {
                assert(self@.tasks.contains_key(self.tasks@[0].0));
            }
        }
        self.tasks.len() > 0
    }

    /// Whether `key` is being fetched.
    pub fn is_active(&self, key: &FetchKey) -> (r: bool)
        ensures
            r == self@.active.contains(key@),
    {
        find_key(&self.active, key).is_some()
    }

    /// Whether any one version of the package is being fetched.
    pub fn has_active_exact_fetch(&self, name: &str) -> (r: bool)
        ensures
            r == exists|version: Seq<char>| self@.active.contains(KeyView::Exact(name@, version)),
    {
        let total = self.active.len();
        let mut i: usize = 0;
        while i < total
            invariant
                i <= total,
                total == self.active@.len(),
                forall|j: int|
                    #![trigger self.active@[j]]
                    0 <= j < i ==> !(self.active@[j]@ is Exact && self.active@[j]@->Exact_0 == name@),
            decreases total - i,
        {
            if let FetchKey::Exact(active_name, version) = &self.active[i] {
                if same_text(active_name.as_str(), name) {
                    proof {
                        assert(key_views(self.active@)[i as int] == KeyView::Exact(name@, version@));
                        assert(self@.active.contains(KeyView::Exact(name@, version@)));
                    }
                    return true;
                }
            }
            i += 1;
        }
        proof {
            assert forall|version: Seq<char>| !self@.active.contains(KeyView::Exact(name@, version)) by {
                if self@.active.contains(KeyView::Exact(name@, version)) {
                    let keys = key_views(self.active@);
                    let j = choose|j: int| 0 <= j < keys.len() && keys[j] == KeyView::Exact(name@, version);
                    assert(self.active@[j]@ == KeyView::Exact(name@, version));
                }
            }
        }
        false
    }

    /// Mark `key` as being fetched; `false` when it already is.
    fn request(&mut self, key: FetchKey) -> (added: bool)
        ensures
            added == !old(self)@.active.contains(key@),
            final(self)@ == after_request(old(self)@, key@),
            final(self).goes_by() == old(self).goes_by(),
    {
        proof {
            use_type_invariant(&*self);
        }
        let ghost was = self.active@;
        let ghost before_view = self@;
        let ghost k = key@;
        if find_key(&self.active, &key).is_some() {
            proof {
                assert(before_view.active.insert(k) =~= before_view.active);
                assert(self@ =~= after_request(before_view, k));
            }
            return false;
        }
        let mut active: Vec<FetchKey> = Vec::new();
        std::mem::swap(&mut active, &mut self.active);
        active.push(key);
        proof {
            let now = key_views(active@);
            assert(now =~= key_views(was).push(k));
            assert forall|x: KeyView| now.contains(x) <==> key_views(was).contains(x) || x == k by {
                if key_views(was).contains(x) {
                    let j = choose|j: int| 0 <= j < was.len() && key_views(was)[j] == x;
                    assert(now[j] == x);
                }
                assert(now[now.len() - 1] == k);
            }
            assert(now.to_set() =~= key_views(was).to_set().insert(k));
        }
        self.active = active;
        proof {
            assert(self@ =~= after_request(before_view, k));
        }
        true
    }

    /// Fetch all versions of a package, unless that is being done.
    ///
    /// `name_is_excluded` says whether the minimum release age lets the name
    /// pass whatever the version, `primer_is_recent` whether the bundled
    /// documents are more recent than `published_by`. What comes back is what a
    /// new task is to go by.
    pub fn ensure_fetch(
        &mut self,
        name: &str,
        name_is_excluded: bool,
        published_by: Option<&str>,
        primer_is_recent: bool,
        force_refresh: bool,
    ) -> (r: Option<FetchInputs>)
        ensures
            final(self)@ == after_request(old(self)@, KeyView::Full(name@)),
            final(self).goes_by() == old(self).goes_by(),
            r is None <==> old(self)@.active.contains(KeyView::Full(name@)),
            r is Some ==> r->0@ == inputs_for(
                old(self).goes_by(),
                name@,
                name_is_excluded,
                opt_str(published_by),
                primer_is_recent,
                force_refresh,
            ),
    {
        if !self.request(FetchKey::Full(name.to_owned())) {
            return None;
        }
        Some(self.inputs(name, name_is_excluded, published_by, primer_is_recent, force_refresh))
    }

    /// Fetch one version of a package that is an optional dependency, unless
    /// that is being done.
    pub fn ensure_exact_optional_fetch(
        &mut self,
        name: &str,
        version: &str,
        name_is_excluded: bool,
        published_by: Option<&str>,
        primer_is_recent: bool,
    ) -> (r: Option<FetchInputs>)
        ensures
            final(self)@ == after_request(old(self)@, KeyView::Exact(name@, version@)),
            final(self).goes_by() == old(self).goes_by(),
            r is None <==> old(self)@.active.contains(KeyView::Exact(name@, version@)),
            r is Some ==> r->0@ == inputs_for(
                old(self).goes_by(),
                name@,
                name_is_excluded,
                opt_str(published_by),
                primer_is_recent,
                false,
            ),
    {
        if !self.request(FetchKey::Exact(name.to_owned(), version.to_owned())) {
            return None;
        }
        Some(self.inputs(name, name_is_excluded, published_by, primer_is_recent, false))
    }

    fn inputs(
        &self,
        name: &str,
        name_is_excluded: bool,
        published_by: Option<&str>,
        primer_is_recent: bool,
        force_refresh: bool,
    ) -> (r: FetchInputs)
        ensures
            r@ == inputs_for(
                self.goes_by(),
                name@,
                name_is_excluded,
                opt_str(published_by),
                primer_is_recent,
                force_refresh,
            ),
    {
        FetchInputs {
            name: name.to_owned(),
            cache_dir: copy_opt(&self.settings.cache_dir),
            full_cache_dir: copy_opt(&self.settings.full_cache_dir),
            primer_covers_cutoff: name_is_excluded || published_by.is_none() || primer_is_recent,
            force_metadata_primer: self.settings.force_metadata_primer,
            needs_time: self.settings.needs_time,
            force_refresh,
        }
    }

    /// Take note of the task that fetches `key`.
    pub fn task_started(&mut self, id: u64, key: &FetchKey)
        ensures
            final(self)@ == after_start(old(self)@, id, key@),
            final(self).goes_by() == old(self).goes_by(),
    {
        proof {
            use_type_invariant(&*self);
        }
        let ghost before_view = self@;
        let ghost was = self.tasks@;
        let mut tasks: Vec<(u64, FetchKey)> = Vec::new();
        std::mem::swap(&mut tasks, &mut self.tasks);
        if let Some(i) = find_task(&tasks, id) {
            tasks.remove(i);
            proof {
                lemma_task_removed(was, i as int);
            }
        } else {
            proof {
                lemma_task_map(was);
                assert(task_map(was).remove(id) =~= task_map(was));
            }
        }
        let ghost rest = tasks@;
        proof {
            assert(task_map(rest) == task_map(was).remove(id));
            lemma_task_map(rest);
            assert forall|j: int| 0 <= j < rest.len() implies (#[trigger] rest[j]).0 != id by {
                assert(task_map(rest).contains_key(rest[j].0));
            }
        }
        tasks.push((id, key.copy()));
        proof {
            assert(tasks@.drop_last() =~= rest);
            assert(task_map(tasks@) =~= task_map(was).insert(id, key@));
        }
        self.tasks = tasks;
        proof {
            assert(self@ =~= after_start(before_view, id, key@));
        }
    }

    /// Let go of `key`.
    fn release(&mut self, key: &FetchKey)
        ensures
            final(self)@ == (SchedulerView { active: old(self)@.active.remove(key@), ..old(self)@ }),
            final(self).goes_by() == old(self).goes_by(),
    {
        proof {
            use_type_invariant(&*self);
        }
        let ghost before_view = self@;
        let ghost was = self.active@;
        match find_key(&self.active, key) {
            Some(i) => {
                let mut active: Vec<FetchKey> = Vec::new();
                std::mem::swap(&mut active, &mut self.active);
                active.remove(i);
                proof {
                    lemma_key_removed(was, i as int);
                }
                self.active = active;
            },
            None => {
                proof {
                    assert(before_view.active.remove(key@) =~= before_view.active);
                }
            },
        }
        proof {
            assert(self@ =~= (SchedulerView { active: before_view.active.remove(key@), ..before_view }));
        }
    }

    /// Take note that a task was joined. A task that finished gives its key
    /// back; the key of one that was lost is the one it was started with.
    pub fn join_next(&mut self, id: u64, finished: Option<&FetchKey>)
        ensures
            final(self)@ == after_join(old(self)@, id, opt_key(finished)),
            final(self).goes_by() == old(self).goes_by(),
            old(self)@.tasks.dom().finite(),
            final(self)@.tasks.dom().finite(),
            old(self)@.tasks.contains_key(id) ==> final(self)@.tasks.dom().len() + 1 == old(self)@.tasks.dom().len(),
    {
        proof {
            use_type_invariant(&*self);
            lemma_task_map(self.tasks@);
            if self@.tasks.contains_key(id) {
                law_joining_lowers_the_count(self@, id, opt_key(finished));
            }
        }
        let ghost before_view = self@;
        let ghost was = self.tasks@;
        let mut tasks: Vec<(u64, FetchKey)> = Vec::new();
        std::mem::swap(&mut tasks, &mut self.tasks);
        proof {
            lemma_task_map(was);
        }
        let lost: Option<FetchKey> = match find_task(&tasks, id) {
            Some(i) => {
                proof {
                    lemma_task_removed(was, i as int);
                    assert(was[i as int].0 == id);
                }
                let (_, key) = tasks.remove(i);
                Some(key)
            },
            None => {
                proof {
                    assert(task_map(was).remove(id) =~= task_map(was));
                }
                None
            },
        };
        self.tasks = tasks;
        match finished {
            Some(key) => {
                self.release(key);
            },
            None => {
                if let Some(key) = &lost {
                    self.release(key);
                }
            },
        }
        proof {
            assert(self@ =~= after_join(before_view, id, opt_key(finished)));
        }
    }

    /// Remember that the document of a package came with the program.
    pub fn note_primer_seeded(&mut self, name: String)
        ensures
            final(self)@ == (SchedulerView {
                primer_seeded: old(self)@.primer_seeded.insert(name@),
                ..old(self)@
            }),
            final(self).goes_by() == old(self).goes_by(),
    {
        proof {
            use_type_invariant(&*self);
        }
        let mut seeded = StrSet::new();
        std::mem::swap(&mut seeded, &mut self.primer_seeded);
        seeded.insert(name);
        self.primer_seeded = seeded;
    }

    /// Whether the document of a package came with the program; this is
    /// forgotten.
    pub fn take_primer_seeded(&mut self, name: &str) -> (r: bool)
        ensures
            r == old(self)@.primer_seeded.contains(name@),
            final(self)@ == (SchedulerView {
                primer_seeded: old(self)@.primer_seeded.remove(name@),
                ..old(self)@
            }),
            final(self).goes_by() == old(self).goes_by(),
    {
        proof {
            use_type_invariant(&*self);
        }
        let mut seeded = StrSet::new();
        std::mem::swap(&mut seeded, &mut self.primer_seeded);
        let r = seeded.remove(name);
        self.primer_seeded = seeded;
        r
    }
}

/// An optional key.
pub open spec fn opt_key(key: Option<&FetchKey>) -> Option<KeyView> {
    match key {
        Some(k) => Some(k@),
        None => None,
    }
}

/// An optional text.
pub open spec fn opt_str(text: Option<&str>) -> Option<Seq<char>> {
    match text {
        Some(t) => Some(t@),
        None => None,
    }
}

/// What is being fetched is what the tasks fetch, each key by one task.
pub open spec fn in_step(s: SchedulerView) -> bool {
    &&& forall|id: u64| #[trigger] s.tasks.contains_key(id) ==> s.active.contains(s.tasks[id])
    &&& forall|key: KeyView| #[trigger]
        s.active.contains(key) ==> exists|id: u64| #[trigger] s.tasks.contains_key(id) && s.tasks[id] == key
    &&& forall|a: u64, b: u64| #[trigger]
        s.tasks.contains_key(a) && #[trigger] s.tasks.contains_key(b) && s.tasks[a] == s.tasks[b] ==> a == b
}

/// Asking for a fetch and starting its task keeps one task for each key.
pub proof fn law_starting_keeps_one_task_per_key(s: SchedulerView, id: u64, key: KeyView)
    requires
        in_step(s),
        !s.active.contains(key),
        !s.tasks.contains_key(id),
    ensures
        in_step(after_start(after_request(s, key), id, key)),
{
    let t = after_start(after_request(s, key), id, key);
    assert forall|k: KeyView| #[trigger] t.active.contains(k) implies exists|i: u64| #[trigger]
        t.tasks.contains_key(i) && t.tasks[i] == k by {
        if k == key {
            assert(t.tasks.contains_key(id));
        } else {
            assert(s.active.contains(k));
            let i = choose|i: u64| #[trigger] s.tasks.contains_key(i) && s.tasks[i] == k;
            assert(t.tasks.contains_key(i));
        }
    }
    assert forall|a: u64, b: u64| #[trigger]
        t.tasks.contains_key(a) && #[trigger] t.tasks.contains_key(b) && t.tasks[a] == t.tasks[b] implies a == b by {
        if a != id {
            assert(s.tasks.contains_key(a));
        }
        if b != id {
            assert(s.tasks.contains_key(b));
        }
    }
}

/// Joining a task lets go of its key, whether the task finished or was lost,
/// and of nothing else.
pub proof fn law_joining_releases_the_key(s: SchedulerView, id: u64)
    requires
        in_step(s),
        s.tasks.contains_key(id),
    ensures
        after_join(s, id, Some(s.tasks[id])) == after_join(s, id, None),
        !after_join(s, id, None).active.contains(s.tasks[id]),
        !after_join(s, id, None).tasks.contains_key(id),
        in_step(after_join(s, id, None)),
{
    let t = after_join(s, id, None);
    assert forall|i: u64| #[trigger] t.tasks.contains_key(i) implies t.active.contains(t.tasks[i]) by {
        assert(s.tasks.contains_key(i));
    }
    assert forall|k: KeyView| #[trigger] t.active.contains(k) implies exists|i: u64| #[trigger]
        t.tasks.contains_key(i) && t.tasks[i] == k by {
        assert(s.active.contains(k));
        let i = choose|i: u64| #[trigger] s.tasks.contains_key(i) && s.tasks[i] == k;
        assert(t.tasks.contains_key(i));
    }
    assert forall|a: u64, b: u64| #[trigger]
        t.tasks.contains_key(a) && #[trigger] t.tasks.contains_key(b) && t.tasks[a] == t.tasks[b] implies a == b by {
        assert(s.tasks.contains_key(a) && s.tasks.contains_key(b));
    }
}

/// Joining a task that runs leaves one task fewer, whether it finished or was
/// lost, and its key can be fetched again.
pub proof fn law_joining_lowers_the_count(s: SchedulerView, id: u64, finished: Option<KeyView>)
    requires
        s.tasks.dom().finite(),
        s.tasks.contains_key(id),
    ensures
        after_join(s, id, finished).tasks.dom().finite(),
        after_join(s, id, finished).tasks.dom().len() + 1 == s.tasks.dom().len(),
        finished is None || finished == Some(s.tasks[id]) ==> !after_join(s, id, finished).active.contains(s.tasks[id]),
{
    assert(after_join(s, id, finished).tasks.dom() =~= s.tasks.dom().remove(id));
}

/// Nothing can be joined exactly where no task runs; then nothing is being
/// fetched.
pub proof fn law_nothing_to_join_where_nothing_runs(s: SchedulerView)
    requires
        s.tasks.dom().finite(),
        in_step(s),
    ensures
        s.tasks.dom().len() == 0 <==> s.tasks == Map::<u64, KeyView>::empty(),
        s.tasks.dom().len() == 0 ==> s.active == Set::<KeyView>::empty(),
{
    if s.tasks.dom().len() == 0 {
        assert(s.tasks =~= Map::<u64, KeyView>::empty());
        law_drained_scheduler_is_idle(s);
    }
}

/// Once every task was joined, nothing is being fetched.
pub proof fn law_drained_scheduler_is_idle(s: SchedulerView)
    requires
        in_step(s),
        s.tasks == Map::<u64, KeyView>::empty(),
    ensures
        s.active == Set::<KeyView>::empty(),
{
    assert forall|key: KeyView| !s.active.contains(key) by {
        if s.active.contains(key) {
            let i = choose|i: u64| #[trigger] s.tasks.contains_key(i) && s.tasks[i] == key;
            assert(s.tasks.contains_key(i));
        }
    }
    assert(s.active =~= Set::<KeyView>::empty());
}

} // verus!
