use vstd::prelude::*;

verus! {

/// One persisted row: a package name, whether it has been announced, and when.
pub struct PackageRecord {
    pub name: String,
    pub visited: bool,
    pub date: Option<i64>,
}

/// The mathematical content of a `PackageRecord`.
pub struct RecordView {
    pub name: Seq<char>,
    pub visited: bool,
    pub date: Option<i64>,
}

impl View for PackageRecord {
    type V = RecordView;

    open spec fn view(&self) -> RecordView {
        RecordView { name: self.name@, visited: self.visited, date: self.date }
    }
}

/// The character sequences of a list of strings.
pub open spec fn name_seq(v: Seq<String>) -> Seq<Seq<char>> {
    v.map_values(|s: String| s@)
}

/// A record that has just been observed in the catalog.
pub open spec fn fresh(name: Seq<char>) -> RecordView {
    RecordView { name, visited: false, date: None }
}

pub open spec fn has_name(s: Seq<RecordView>, name: Seq<char>) -> bool {
    exists|i: int| 0 <= i < s.len() && s[i].name == name
}

pub open spec fn names_unique(s: Seq<RecordView>) -> bool {
    forall|i: int, j: int| 0 <= i < s.len() && 0 <= j < s.len() && i != j ==> s[i].name != s[j].name
}

/// A record carries a date exactly when it has been announced.
pub open spec fn stamps_consistent(s: Seq<RecordView>) -> bool {
    forall|i: int| 0 <= i < s.len() ==> (s[i].visited <==> s[i].date is Some)
}

pub open spec fn records_wf(s: Seq<RecordView>) -> bool {
    names_unique(s) && stamps_consistent(s)
}

/// The store after syncing `names` one by one, in order: each name not yet
/// present is appended as a fresh record; known names change nothing.
pub open spec fn synced(s: Seq<RecordView>, names: Seq<Seq<char>>) -> Seq<RecordView>
    decreases names.len(),
{
    if names.len() == 0 {
        s
    } else {
        let r = synced(s, names.drop_last());
        if has_name(r, names.last()) {
            r
        } else {
            r.push(fresh(names.last()))
        }
    }
}

/// The store after announcing `name` at time `date`. A record already
/// announced keeps its first date.
pub open spec fn marked(s: Seq<RecordView>, name: Seq<char>, date: i64) -> Seq<RecordView> {
    s.map_values(
        |r: RecordView|
            if r.name == name && !r.visited {
                RecordView { name: r.name, visited: true, date: Some(date) }
            } else {
                r
            },
    )
}

/// The names of the records not yet announced, in store order.
pub open spec fn unvisited(s: Seq<RecordView>) -> Seq<Seq<char>>
    decreases s.len(),
{
    if s.len() == 0 {
        Seq::empty()
    } else {
        let p = unvisited(s.drop_last());
        if s.last().visited {
            p
        } else {
            p.push(s.last().name)
        }
    }
}

/// Syncing keeps every existing record in place and only appends fresh ones;
/// afterwards every synced name is present and names stay unique.
pub proof fn lemma_synced_extends(s: Seq<RecordView>, names: Seq<Seq<char>>)
    requires
        records_wf(s),
    ensures
        records_wf(synced(s, names)),
        s.len() <= synced(s, names).len(),
        forall|k: int| 0 <= k < s.len() ==> synced(s, names)[k] == s[k],
        forall|k: int| s.len() <= k < synced(s, names).len() ==> synced(s, names)[k] == fresh(synced(s, names)[k].name),
        forall|i: int| 0 <= i < names.len() ==> has_name(synced(s, names), names[i]),
    decreases names.len(),
{
    if names.len() > 0 {
        let prev = names.drop_last();
        lemma_synced_extends(s, prev);
        let r = synced(s, prev);
        assert forall|i: int| 0 <= i < names.len() implies has_name(synced(s, names), names[i]) by {
            if i < names.len() - 1 {
                assert(prev[i] == names[i]);
                let k = choose|k: int| 0 <= k < r.len() && r[k].name == names[i];
                if !has_name(r, names.last()) {
                    assert(r.push(fresh(names.last()))[k] == r[k]);
                }
            } else if !has_name(r, names.last()) {
                assert(r.push(fresh(names.last()))[r.len() as int].name == names.last());
            }
        }
    }
}

/// A sync whose names are all known already leaves the store unchanged.
pub proof fn lemma_synced_known(r: Seq<RecordView>, names: Seq<Seq<char>>)
    requires
        forall|i: int| 0 <= i < names.len() ==> has_name(r, names[i]),
    ensures
        synced(r, names) == r,
    decreases names.len(),
{
    if names.len() > 0 {
        let prev = names.drop_last();
        assert forall|i: int| 0 <= i < prev.len() implies has_name(r, prev[i]) by {
            assert(prev[i] == names[i]);
        }
        lemma_synced_known(r, prev);
        assert(has_name(r, names[names.len() - 1]));
    }
}

/// Syncing the same catalog twice gives the same store as syncing it once.
pub proof fn lemma_sync_idempotent(s: Seq<RecordView>, names: Seq<Seq<char>>)
    requires
        records_wf(s),
    ensures
        synced(synced(s, names), names) == synced(s, names),
{
    lemma_synced_extends(s, names);
    lemma_synced_known(synced(s, names), names);
}

/// Exactly one record carries `name`.
pub open spec fn has_one_record(s: Seq<RecordView>, name: Seq<char>) -> bool {
    exists|k: int|
        0 <= k < s.len() && #[trigger] s[k].name == name
            && forall|m: int| 0 <= m < s.len() && #[trigger] s[m].name == name ==> m == k
}

/// After a sync, every synced name has exactly one record.
pub proof fn lemma_sync_covers(s: Seq<RecordView>, names: Seq<Seq<char>>)
    requires
        records_wf(s),
    ensures
        forall|i: int| 0 <= i < names.len() ==> has_one_record(synced(s, names), #[trigger] names[i]),
{
    lemma_synced_extends(s, names);
    let t = synced(s, names);
    assert forall|i: int| 0 <= i < names.len() implies has_one_record(t, #[trigger] names[i]) by {
        assert(has_name(t, names[i]));
        let k = choose|k: int| 0 <= k < t.len() && t[k].name == names[i];
        assert(forall|m: int| 0 <= m < t.len() && t[m].name == names[i] ==> m == k);
    }
}

/// Only announcing sets `visited`: a sync leaves known records as they were
/// and adds only unannounced ones, and announcing `name` sets `visited` on
/// its record alone, never clearing it on any record.
pub proof fn lemma_visited_only_by_mark(s: Seq<RecordView>, names: Seq<Seq<char>>, name: Seq<char>, date: i64)
    requires
        records_wf(s),
    ensures
        forall|k: int| 0 <= k < synced(s, names).len() ==>
            (synced(s, names)[k].visited <==> (k < s.len() && s[k].visited)),
        marked(s, name, date).len() == s.len(),
        forall|k: int| 0 <= k < s.len() ==> marked(s, name, date)[k].name == s[k].name,
        forall|k: int| 0 <= k < s.len() ==>
            (marked(s, name, date)[k].visited <==> (s[k].visited || s[k].name == name)),
{
    lemma_synced_extends(s, names);
}

/// A name is listed as unannounced exactly when some record of it is unannounced.
pub proof fn lemma_unvisited_members(s: Seq<RecordView>)
    ensures
        forall|x: Seq<char>| unvisited(s).contains(x) <==> exists|k: int| 0 <= k < s.len() && s[k].name == x && !s[k].visited,
    decreases s.len(),
{
    if s.len() > 0 {
        let p = s.drop_last();
        lemma_unvisited_members(p);
        assert forall|x: Seq<char>| unvisited(s).contains(x) <==> exists|k: int| 0 <= k < s.len() && s[k].name == x && !s[k].visited by {
            if unvisited(s).contains(x) {
                if unvisited(p).contains(x) {
                    let k = choose|k: int| 0 <= k < p.len() && p[k].name == x && !p[k].visited;
                    assert(s[k] == p[k]);
                } else {
                    assert(unvisited(s) == unvisited(p).push(s.last().name));
                    let j = choose|j: int| 0 <= j < unvisited(s).len() && unvisited(s)[j] == x;
                    assert(j == unvisited(p).len());
                    assert(s[s.len() - 1].name == x);
                }
            }
            if exists|k: int| 0 <= k < s.len() && s[k].name == x && !s[k].visited {
                let k = choose|k: int| 0 <= k < s.len() && s[k].name == x && !s[k].visited;
                if k < s.len() - 1 {
                    assert(p[k] == s[k]);
                    assert(unvisited(p).contains(x));
                    let j = choose|j: int| 0 <= j < unvisited(p).len() && unvisited(p)[j] == x;
                    if !s.last().visited {
                        assert(unvisited(s)[j] == x);
                    }
                } else {
                    assert(unvisited(s) == unvisited(p).push(s.last().name));
                    assert(unvisited(s)[unvisited(p).len() as int] == x);
                }
            }
        }
    }
}

/// The set of names that the records carry.
pub open spec fn name_set(s: Seq<RecordView>) -> Set<Seq<char>> {
    s.map_values(|r: RecordView| r.name).to_set()
}

proof fn lemma_name_set_push(s: Seq<RecordView>, r: RecordView)
    ensures
        name_set(s.push(r)) == name_set(s).insert(r.name),
{
    let a = s.push(r).map_values(|x: RecordView| x.name);
    let b = s.map_values(|x: RecordView| x.name);
    assert(a =~= b.push(r.name));
    assert forall|x: Seq<char>| a.to_set().contains(x) <==> b.to_set().insert(r.name).contains(x) by {
        if a.to_set().contains(x) {
            let i = choose|i: int| 0 <= i < a.len() && a[i] == x;
            if i < b.len() {
                assert(b[i] == x);
            }
        }
        if b.to_set().contains(x) {
            let i = choose|i: int| 0 <= i < b.len() && b[i] == x;
            assert(a[i] == x);
        }
        if x == r.name {
            assert(a[b.len() as int] == x);
        }
    }
    assert(a.to_set() =~= b.to_set().insert(r.name));
}

proof fn lemma_name_set_has(s: Seq<RecordView>, name: Seq<char>)
    ensures
        name_set(s).contains(name) <==> has_name(s, name),
{
    let b = s.map_values(|x: RecordView| x.name);
    if has_name(s, name) {
        let i = choose|i: int| 0 <= i < s.len() && s[i].name == name;
        assert(b[i] == name);
    }
    if name_set(s).contains(name) {
        let i = choose|i: int| 0 <= i < b.len() && b[i] == name;
        assert(s[i].name == name);
    }
}

/// Syncing adds to the store's names exactly the catalog's names.
pub proof fn lemma_synced_names(s: Seq<RecordView>, names: Seq<Seq<char>>)
    ensures
        name_set(synced(s, names)) == name_set(s).union(names.to_set()),
    decreases names.len(),
{
    if names.len() == 0 {
        assert(names.to_set() =~= Set::<Seq<char>>::empty());
        assert(name_set(s).union(names.to_set()) =~= name_set(s));
    } else {
        let prev = names.drop_last();
        lemma_synced_names(s, prev);
        let r = synced(s, prev);
        lemma_name_set_has(r, names.last());
        if !has_name(r, names.last()) {
            lemma_name_set_push(r, fresh(names.last()));
        }
        assert(names =~= prev.push(names.last()));
        assert(names.to_set() =~= prev.to_set().insert(names.last())) by {
            assert forall|x: Seq<char>| names.to_set().contains(x) <==> prev.to_set().insert(names.last()).contains(x) by {
                if names.to_set().contains(x) {
                    let i = choose|i: int| 0 <= i < names.len() && names[i] == x;
                    if i < prev.len() {
                        assert(prev[i] == x);
                    }
                }
                if prev.to_set().contains(x) {
                    let i = choose|i: int| 0 <= i < prev.len() && prev[i] == x;
                    assert(names[i] == x);
                }
                if x == names.last() {
                    assert(names[names.len() - 1] == x);
                }
            }
        }
        assert(name_set(synced(s, names)) =~= name_set(s).union(names.to_set()));
    }
}

/// A store with unique names holds as many records as distinct names.
pub proof fn lemma_count_is_names(s: Seq<RecordView>)
    requires
        names_unique(s),
    ensures
        s.len() == name_set(s).len(),
{
    let b = s.map_values(|x: RecordView| x.name);
    assert(b.no_duplicates()) by {
        assert forall|i: int, j: int| 0 <= i < b.len() && 0 <= j < b.len() && i != j implies b[i] != b[j] by {
            assert(s[i].name != s[j].name);
        }
    }
    b.unique_seq_to_set();
}

/// After one sync, and equally after two syncs of the same catalog, the
/// store holds one record per distinct name among its earlier names and the
/// catalog's names.
pub proof fn lemma_sync_count(s: Seq<RecordView>, names: Seq<Seq<char>>)
    requires
        records_wf(s),
    ensures
        synced(s, names).len() == name_set(s).union(names.to_set()).len(),
        synced(synced(s, names), names).len() == name_set(s).union(names.to_set()).len(),
{
    lemma_synced_extends(s, names);
    lemma_synced_names(s, names);
    lemma_count_is_names(synced(s, names));
    lemma_sync_idempotent(s, names);
}

/// One change to the store: a sync of a catalog, or an announcement.
pub enum StoreOp {
    Sync(Seq<Seq<char>>),
    Mark(Seq<char>, i64),
}

/// The store after the changes `ops`, in order. An announcement of an
/// unknown name changes nothing, as `mark_visited` leaves the store as it was.
pub open spec fn apply_ops(s: Seq<RecordView>, ops: Seq<StoreOp>) -> Seq<RecordView>
    decreases ops.len(),
{
    if ops.len() == 0 {
        s
    } else {
        let r = apply_ops(s, ops.drop_last());
        match ops.last() {
            StoreOp::Sync(names) => synced(r, names),
            StoreOp::Mark(name, date) => marked(r, name, date),
        }
    }
}

pub open spec fn announced(s: Seq<RecordView>, name: Seq<char>) -> bool {
    has_name(s, name) && forall|k: int| 0 <= k < s.len() && s[k].name == name ==> s[k].visited
}

proof fn lemma_marked_wf(s: Seq<RecordView>, name: Seq<char>, date: i64)
    requires
        records_wf(s),
    ensures
        records_wf(marked(s, name, date)),
{
    let m = marked(s, name, date);
    assert forall|i: int| 0 <= i < m.len() implies (m[i].visited <==> m[i].date is Some) by {}
}

proof fn lemma_ops_keep_announced(s: Seq<RecordView>, name: Seq<char>, ops: Seq<StoreOp>)
    requires
        records_wf(s),
        announced(s, name),
    ensures
        records_wf(apply_ops(s, ops)),
        announced(apply_ops(s, ops), name),
    decreases ops.len(),
{
    if ops.len() > 0 {
        lemma_ops_keep_announced(s, name, ops.drop_last());
        let r = apply_ops(s, ops.drop_last());
        match ops.last() {
            StoreOp::Sync(names) => {
                lemma_synced_extends(r, names);
                let t = synced(r, names);
                let k0 = choose|k: int| 0 <= k < r.len() && r[k].name == name;
                assert(t[k0] == r[k0]);
                assert forall|k: int| 0 <= k < t.len() && t[k].name == name implies t[k].visited by {
                    if k >= r.len() {
                        assert(t[k0].name == t[k].name);
                        assert(k0 != k);
                    }
                }
            },
            StoreOp::Mark(n, d) => {
                lemma_marked_wf(r, n, d);
                let k0 = choose|k: int| 0 <= k < r.len() && r[k].name == name;
                assert(marked(r, n, d)[k0].name == name);
            },
        }
    }
}

/// Once `name` has been announced, it is never listed as unannounced again,
/// whatever syncs and announcements follow.
pub proof fn lemma_announced_stays_excluded(s: Seq<RecordView>, name: Seq<char>, date: i64, ops: Seq<StoreOp>)
    requires
        records_wf(s),
        has_name(s, name),
    ensures
        !unvisited(apply_ops(marked(s, name, date), ops)).contains(name),
{
    let m = marked(s, name, date);
    lemma_marked_wf(s, name, date);
    let k0 = choose|k: int| 0 <= k < s.len() && s[k].name == name;
    assert(m[k0].name == name);
    lemma_ops_keep_announced(m, name, ops);
    let t = apply_ops(m, ops);
    lemma_unvisited_members(t);
}

#[derive(Debug, PartialEq, Eq, Structural)]
pub enum StoreError {
    /// `mark_visited` named a package that the store does not hold.
    UnknownName,
}

/// The set of known packages, each once, with its announcement state.
pub struct Store {
    records: Vec<PackageRecord>,
}

impl View for Store {
    type V = Seq<RecordView>;

    closed spec fn view(&self) -> Seq<RecordView> {
        self.records@.map_values(|r: PackageRecord| r@)
    }
}

impl Store {
    pub open spec fn wf(&self) -> bool {
        records_wf(self@)
    }

    /// An empty store.
    pub fn new() -> (r: Store)
        ensures
            r@ == Seq::<RecordView>::empty(),
            r.wf(),
    {
        let r = Store { records: Vec::new() };
        assert(r@ =~= Seq::<RecordView>::empty());
        r
    }

    /// Number of known packages.
    pub fn count(&self) -> (r: usize)
        ensures
            r == self@.len(),
    {
        self.records.len()
    }

    /// Whether a record with this name exists.
    pub fn contains(&self, name: &String) -> (r: bool)
        ensures
            r == has_name(self@, name@),
    {
        let mut j: usize = 0;
        while j < self.records.len()
            invariant
                j <= self.records.len(),
                forall|k: int| 0 <= k < j ==> self@[k].name != name@,
            decreases self.records.len() - j,
        {
            if self.records[j].name == *name {
                assert(self@[j as int].name == name@);
                return true;
            }
            j = j + 1;
        }
        false
    }

    fn push_fresh(&mut self, name: &String)
        requires
            old(self).wf(),
            !has_name(old(self)@, name@),
        ensures
            final(self)@ == old(self)@.push(fresh(name@)),
            final(self).wf(),
    {
        let rec = PackageRecord { name: name.clone(), visited: false, date: None };
        self.records.push(rec);
        assert(self@ =~= old(self)@.push(fresh(name@)));
    }

    /// Adds a fresh record for each name not yet known, in the order given,
    /// and returns the names that were added. Known records stay as they are.
    pub fn sync(&mut self, names: &Vec<String>) -> (added: Vec<String>)
        requires
            old(self).wf(),
        ensures
            final(self).wf(),
            final(self)@ == synced(old(self)@, name_seq(names@)),
            final(self)@ == old(self)@ + name_seq(added@).map_values(|n: Seq<char>| fresh(n)),
    {
        let mut added: Vec<String> = Vec::new();
        let mut i: usize = 0;
        assert(name_seq(names@).take(0) =~= Seq::<Seq<char>>::empty());
        assert(old(self)@ + name_seq(added@).map_values(|n: Seq<char>| fresh(n)) =~= old(self)@);
        while i < names.len()
            invariant
                i <= names.len(),
                self.wf(),
                self@ == synced(old(self)@, name_seq(names@).take(i as int)),
                self@ == old(self)@ + name_seq(added@).map_values(|n: Seq<char>| fresh(n)),
            decreases names.len() - i,
        {
            let ghost before = self@;
            let ghost prefix = name_seq(names@).take(i as int + 1);
            assert(prefix.drop_last() =~= name_seq(names@).take(i as int));
            assert(prefix.last() == names@[i as int]@);
            let name = &names[i];
            if !self.contains(name) {
                self.push_fresh(name);
                let ghost added_before = added@;
                added.push(name.clone());
                assert(name_seq(added@) =~= name_seq(added_before).push(name@));
                assert(self@ =~= old(self)@ + name_seq(added@).map_values(|n: Seq<char>| fresh(n)));
            }
            assert(self@ == synced(old(self)@, prefix));
            i = i + 1;
        }
        assert(name_seq(names@).take(names.len() as int) =~= name_seq(names@));
        added
    }

    /// Records that `name` has been announced at `date`. A record that was
    /// already announced keeps its first date.
    pub fn mark_visited(&mut self, name: &String, date: i64) -> (r: Result<(), StoreError>)
        requires
            old(self).wf(),
        ensures
            final(self).wf(),
            r is Err <==> !has_name(old(self)@, name@),
            r is Err ==> r == Err::<(), StoreError>(StoreError::UnknownName) && final(self)@ == old(self)@,
            r is Ok ==> final(self)@ == marked(old(self)@, name@, date),
    {
        let mut j: usize = 0;
        while j < self.records.len()
            invariant
                j <= self.records.len(),
                self@ == old(self)@,
                records_wf(old(self)@),
                forall|k: int| 0 <= k < j ==> self@[k].name != name@,
            decreases self.records.len() - j,
        {
            if self.records[j].name == *name {
                assert(self@[j as int].name == name@);
                assert(forall|k: int| 0 <= k < self@.len() && k != j ==> self@[k].name != name@);
                if !self.records[j].visited {
                    let rec = PackageRecord { name: name.clone(), visited: true, date: Some(date) };
                    self.records.set(j, rec);
                }
                assert(self@ =~= marked(old(self)@, name@, date));
                return Ok(());
            }
            j = j + 1;
        }
        Err(StoreError::UnknownName)
    }

    /// The names of all packages not yet announced, in store order.
    pub fn unvisited_names(&self) -> (r: Vec<String>)
        ensures
            name_seq(r@) == unvisited(self@),
    {
        let mut out: Vec<String> = Vec::new();
        let mut j: usize = 0;
        assert(self@.take(0) =~= Seq::<RecordView>::empty());
        assert(name_seq(out@) =~= Seq::<Seq<char>>::empty());
        while j < self.records.len()
            invariant
                j <= self.records.len(),
                name_seq(out@) == unvisited(self@.take(j as int)),
            decreases self.records.len() - j,
        {
            let ghost prefix = self@.take(j as int + 1);
            assert(prefix.drop_last() =~= self@.take(j as int));
            let ghost out_before = out@;
            if !self.records[j].visited {
                out.push(self.records[j].name.clone());
                assert(name_seq(out@) =~= name_seq(out_before).push(self@[j as int].name));
            }
            j = j + 1;
        }
        assert(self@.take(self@.len() as int) =~= self@);
        out
    }
}

} // verus!
