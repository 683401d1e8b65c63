use vstd::prelude::*;
use crate::store::name_seq;

verus! {

/// Number of packages asked for in each catalog page.
pub const PAGE_SIZE: u64 = 100;

/// The page to resume the catalog walk from, given how many packages are
/// already known: every full page of known packages is skipped.
pub fn resume_page(count: u64, page_size: u64) -> (r: u64)
    requires
        page_size > 0,
        count / page_size < u64::MAX,
    ensures
        r == count / page_size + 1,
{
    count / page_size + 1
}

/// What the walk asks for next.
#[derive(Debug, PartialEq, Eq, Structural)]
pub enum WalkStep {
    /// Request this page of the catalog.
    Fetch(u64),
    /// The catalog is complete.
    Done,
}

/// The mathematical state of a catalog walk.
pub struct WalkView {
    pub next_page: nat,
    pub page_size: nat,
    pub names: Seq<Seq<char>>,
    pub finished: bool,
}

/// The walk after receiving one page. Its names are appended; a page holding
/// fewer than `page_size` names (an empty one included) is the last one,
/// otherwise the walk moves on to the following page.
pub open spec fn after_page(w: WalkView, page: Seq<Seq<char>>) -> WalkView {
    WalkView {
        next_page: if page.len() < w.page_size { w.next_page } else { w.next_page + 1 },
        page_size: w.page_size,
        names: w.names + page,
        finished: page.len() < w.page_size,
    }
}

/// Page `page` (counted from 1) of a catalog listed `size` names at a time.
pub open spec fn page_of(items: Seq<Seq<char>>, size: nat, page: nat) -> Seq<Seq<char>> {
    let lo = if (page - 1) * size < items.len() { ((page - 1) * size) as int } else { items.len() as int };
    let hi = if page * size < items.len() { (page * size) as int } else { items.len() as int };
    items.subrange(lo, hi)
}

/// The walk after `steps` requests, each answered with the requested page of
/// the catalog `items`.
pub open spec fn walk_run(w: WalkView, items: Seq<Seq<char>>, steps: nat) -> WalkView
    decreases steps,
{
    if steps == 0 {
        w
    } else {
        let v = walk_run(w, items, (steps - 1) as nat);
        if v.finished {
            v
        } else {
            after_page(v, page_of(items, v.page_size, v.next_page))
        }
    }
}

pub open spec fn walk_start(page: nat, page_size: nat) -> WalkView {
    WalkView { next_page: page, page_size, names: Seq::empty(), finished: false }
}

/// While only full pages come back, after `k` requests from page 1 the walk
/// holds the first `k` pages and asks for page `k + 1`.
pub proof fn lemma_walk_prefix(items: Seq<Seq<char>>, size: nat, k: nat)
    requires
        size > 0,
        k * size <= items.len(),
    ensures
        walk_run(walk_start(1, size), items, k) == (WalkView {
            next_page: k + 1,
            page_size: size,
            names: items.take((k * size) as int),
            finished: false,
        }),
    decreases k,
{
    if k == 0 {
        assert(items.take(0) =~= Seq::<Seq<char>>::empty());
    } else {
        let j = (k - 1) as nat;
        assert(k * size == j * size + size) by (nonlinear_arith)
            requires k == j + 1;
        lemma_walk_prefix(items, size, j);
        let v = walk_run(walk_start(1, size), items, j);
        let page = page_of(items, size, k);
        assert(page.len() == size);
        assert(v.names + page =~= items.take((k * size) as int));
    }
}

/// A walk from page 1 over a catalog of `n` names, `size` to a page, returns
/// the whole catalog in order after exactly `n / size + 1` requests: the
/// last page asked for holds the `n % size` names left after the full pages
/// (none when the catalog fills whole pages), and nothing is asked after it.
pub proof fn lemma_walk_complete(items: Seq<Seq<char>>, size: nat)
    requires
        size > 0,
    ensures
        !walk_run(walk_start(1, size), items, items.len() / size).finished,
        page_of(items, size, items.len() / size + 1)
            == items.subrange(((items.len() / size) * size) as int, items.len() as int),
        page_of(items, size, items.len() / size + 1).len() == items.len() % size,
        walk_run(walk_start(1, size), items, items.len() / size + 1).finished,
        walk_run(walk_start(1, size), items, items.len() / size + 1).names == items,
{
    let n = items.len() as int;
    let q = (n / size as int) as nat;
    vstd::arithmetic::div_mod::lemma_fundamental_div_mod(n, size as int);
    vstd::arithmetic::div_mod::lemma_mod_pos_bound(n, size as int);
    assert(q * size == size * q) by (nonlinear_arith);
    assert((q + 1) * size == q * size + size) by (nonlinear_arith);
    lemma_walk_prefix(items, size, q);
    let v = walk_run(walk_start(1, size), items, q);
    assert(((q + 1) - 1) * size == q * size);
    let last = page_of(items, size, q + 1);
    assert(last == items.subrange((q * size) as int, n));
    assert(v.names + last =~= items);
}

/// Walks the registry's paginated catalog, one page per request, until a
/// page comes back with fewer names than the page size.
pub struct CatalogWalk {
    next_page: u64,
    page_size: u64,
    names: Vec<String>,
    finished: bool,
}

impl View for CatalogWalk {
    type V = WalkView;

    closed spec fn view(&self) -> WalkView {
        WalkView {
            next_page: self.next_page as nat,
            page_size: self.page_size as nat,
            names: name_seq(self.names@),
            finished: self.finished,
        }
    }
}

impl CatalogWalk {
    /// A walk over pages of `page_size` names that starts at `starting_page`,
    /// or at page 1 when none is given.
    pub fn start(starting_page: Option<u64>, page_size: u64) -> (r: CatalogWalk)
        ensures
            r@ == walk_start(
                match starting_page {
                    Some(p) => p as nat,
                    None => 1,
                },
                page_size as nat,
            ),
    {
        let page = match starting_page {
            Some(p) => p,
            None => 1,
        };
        let r = CatalogWalk { next_page: page, page_size, names: Vec::new(), finished: false };
        assert(r@.names =~= Seq::<Seq<char>>::empty());
        r
    }

    /// The next request to make, or `Done` once the catalog is complete.
    pub fn next_step(&self) -> (r: WalkStep)
        ensures
            self@.finished ==> r == WalkStep::Done,
            !self@.finished ==> r == WalkStep::Fetch(self@.next_page as u64),
            self@.next_page <= u64::MAX,
    {
        if self.finished {
            WalkStep::Done
        } else {
            WalkStep::Fetch(self.next_page)
        }
    }

    /// Takes in the page that the last `Fetch` asked for.
    pub fn on_page(&mut self, page: Vec<String>)
        requires
            !old(self)@.finished,
            old(self)@.next_page < u64::MAX,
        ensures
            final(self)@ == after_page(old(self)@, name_seq(page@)),
    {
        let short = (page.len() as u64) < self.page_size;
        let ghost before = self.names@;
        let ghost added = page@;
        let mut page = page;
        self.names.append(&mut page);
        assert(name_seq(self.names@) =~= name_seq(before) + name_seq(added));
        if short {
            self.finished = true;
        } else {
            self.next_page = self.next_page + 1;
        }
    }

    /// The names gathered so far, in catalog order.
    pub fn into_names(self) -> (r: Vec<String>)
        ensures
            name_seq(r@) == self@.names,
    {
        self.names
    }
}

} // verus!
