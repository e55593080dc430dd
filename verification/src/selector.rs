//! Selectors: a request for a year, a day and a part, any of which may be
//! left out, and the rules that settle which solver it means.

use vstd::prelude::*;
use crate::catalog::{distinct, is_latest_day, is_latest_year, latest_day_of, latest_year_of, place_of, Catalog, ModuleInfo};
use crate::error::ResolveError;
use crate::identity::DayData;
use crate::part::Part;

verus! {

/// A request. A field left out is filled in from the catalog.
#[derive(Clone, Copy, Debug, PartialEq, Eq, Structural)]
pub struct Selector {
    pub year: Option<u32>,
    pub day: Option<u32>,
    pub part: Option<Part>,
}

/// What a selector settles on: the place of the module in the catalog,
/// its identity, and the part to run.
#[derive(Clone, Copy, Debug, PartialEq, Eq, Structural)]
pub struct Resolution {
    pub index: usize,
    pub identity: DayData,
    pub part: Part,
}

/// The year meant: the one asked for, else the latest that has a module.
pub open spec fn resolved_year(infos: Seq<ModuleInfo>, selector: Selector) -> Option<u32> {
    match selector.year {
        Some(y) => Some(y),
        None => latest_year_of(infos),
    }
}

/// The day meant: the one asked for, else the latest of the year's
/// modules.
pub open spec fn resolved_day(infos: Seq<ModuleInfo>, selector: Selector, year: u32) -> Option<u32> {
    match selector.day {
        Some(d) => Some(d),
        None => latest_day_of(infos, year),
    }
}

/// The part meant, for a module that was found: the one asked for, else
/// the highest that the module solves. A part without a solver is
/// refused, and so is a module that solves none.
pub open spec fn resolved_part(info: ModuleInfo, selector: Selector) -> Result<Part, ResolveError> {
    match selector.part {
        Some(p) => if info.solves(p) {
            Ok(p)
        } else {
            Err(ResolveError::SolverMissing)
        },
        None => match info.spec_last_part() {
            Some(p) => Ok(p),
            None => Err(ResolveError::SolverMissing),
        },
    }
}

/// What a selector settles on among `infos`: a place and a part, or the
/// reason why not. Year, then day, then the module, then the part.
pub open spec fn resolution(infos: Seq<ModuleInfo>, selector: Selector) -> Result<
    (int, Part),
    ResolveError,
> {
    match resolved_year(infos, selector) {
        None => Err(ResolveError::NotFound),
        Some(y) => match resolved_day(infos, selector, y) {
            None => Err(ResolveError::NotFound),
            Some(d) => match place_of(infos, y, d) {
                None => Err(ResolveError::NotFound),
                Some(i) => match resolved_part(infos[i], selector) {
                    Ok(p) => Ok((i, p)),
                    Err(e) => Err(e),
                },
            },
        },
    }
}

/// The module that `infos` holds under a year and day, if any.
pub open spec fn module_at(infos: Seq<ModuleInfo>, year: u32, day: u32) -> Option<ModuleInfo> {
    match place_of(infos, year, day) {
        Some(i) => Some(infos[i]),
        None => None,
    }
}

/// What a selector settles on, by the module rather than by its place.
pub open spec fn resolved_module(infos: Seq<ModuleInfo>, selector: Selector) -> Result<
    (ModuleInfo, Part),
    ResolveError,
> {
    match resolution(infos, selector) {
        Ok((i, p)) => Ok((infos[i], p)),
        Err(e) => Err(e),
    }
}

impl Selector {
    /// The selector that leaves everything to the defaults.
    #[must_use]
    pub fn any() -> (r: Selector)
        ensures
            r == (Selector { year: None, day: None, part: None }),
    {
        Selector { year: None, day: None, part: None }
    }

    /// The selector that names year, day and part.
    #[must_use]
    pub fn exact(year: u32, day: u32, part: Part) -> (r: Selector)
        ensures
            r == (Selector { year: Some(year), day: Some(day), part: Some(part) }),
    {
        Selector { year: Some(year), day: Some(day), part: Some(part) }
    }
}

impl ModuleInfo {
    /// Settles the part to run on this module.
    pub fn resolve_part(&self, selector: &Selector) -> (r: Result<Part, ResolveError>)
        ensures
            r == resolved_part(*self, *selector),
    {
        let chosen = match selector.part {
            Some(p) => if self.has_part(p) {
                Some(p)
            } else {
                None
            },
            None => self.last_part(),
        };
        match chosen {
            Some(p) => Ok(p),
            None => Err(ResolveError::SolverMissing),
        }
    }
}

impl<M> Catalog<M> {
    /// Finds the module and the part that a selector means.
    pub fn resolve(&self, selector: &Selector) -> (r: Result<Resolution, ResolveError>)
        ensures
            match r {
                Ok(found) => {
                    &&& resolution(self@, *selector) == Ok::<(int, Part), ResolveError>(
                        (found.index as int, found.part),
                    )
                    &&& found.index < self@.len()
                    &&& found.identity == self@[found.index as int].identity
                },
                Err(e) => resolution(self@, *selector) == Err::<(int, Part), ResolveError>(e),
            },
    {
        let year = match selector.year {
            Some(y) => y,
            None => match self.latest_year() {
                Some(y) => y,
                None => { return Err(ResolveError::NotFound); },
            },
        };
        let day = match selector.day {
            Some(d) => d,
            None => match self.latest_day(year) {
                Some(d) => d,
                None => { return Err(ResolveError::NotFound); },
            },
        };
        let index = match self.position(year, day) {
            Some(i) => i,
            None => { return Err(ResolveError::NotFound); },
        };
        let info = match self.info(index) {
            Some(info) => info,
            None => { return Err(ResolveError::NotFound); },
        };
        match info.resolve_part(selector) {
            Ok(part) => Ok(Resolution { index, identity: info.identity, part }),
            Err(e) => Err(e),
        }
    }
}

/// Among modules of distinct identities, at most one place has a given
/// year and day, and `place_of` is that place.
pub proof fn lemma_place_unique(infos: Seq<ModuleInfo>, i: int)
    requires
        distinct(infos),
        0 <= i < infos.len(),
    ensures
        place_of(infos, infos[i].identity.spec_year(), infos[i].identity.spec_day()) == Some(i),
{
    let y = infos[i].identity.spec_year();
    let d = infos[i].identity.spec_day();
    assert(infos[i].identity.names(y, d));
    let k = choose|k: int| 0 <= k < infos.len() && (#[trigger] infos[k]).identity.names(y, d);
    DayData::lemma_identity_by_fields(infos[k].identity, infos[i].identity);
    if k < i {
        assert(infos[k].identity != infos[i].identity);
    } else if i < k {
        assert(infos[i].identity != infos[k].identity);
    }
}

/// A selector with every field set finds the one module of that year and
/// day where the catalog holds it, and answers `NotFound` where it holds
/// none. Found, the module gives the part asked for if it solves it, and
/// `SolverMissing` if not.
pub proof fn lemma_exact_selector(infos: Seq<ModuleInfo>, year: u32, day: u32, part: Part)
    requires
        distinct(infos),
    ensures
        resolved_module(infos, Selector { year: Some(year), day: Some(day), part: Some(part) })
            == match module_at(infos, year, day) {
            Some(m) => if m.solves(part) {
                Ok::<(ModuleInfo, Part), ResolveError>((m, part))
            } else {
                Err::<(ModuleInfo, Part), ResolveError>(ResolveError::SolverMissing)
            },
            None => Err::<(ModuleInfo, Part), ResolveError>(ResolveError::NotFound),
        },
        forall|i: int|
            0 <= i < infos.len() && (#[trigger] infos[i]).identity.names(year, day) ==> module_at(
                infos,
                year,
                day,
            ) == Some(infos[i]),
        module_at(infos, year, day) is None <==> forall|i: int|
            0 <= i < infos.len() ==> !(#[trigger] infos[i]).identity.names(year, day),
{
    assert forall|i: int|
        0 <= i < infos.len() && (#[trigger] infos[i]).identity.names(year, day) implies module_at(
        infos,
        year,
        day,
    ) == Some(infos[i]) by {
        lemma_place_unique(infos, i);
    }
}

/// What a selector with every field set settles on depends on the module
/// of that year and day alone: two catalogs that agree on it agree on the
/// outcome, whatever else they hold.
pub proof fn lemma_exact_selector_ignores_others(
    a: Seq<ModuleInfo>,
    b: Seq<ModuleInfo>,
    year: u32,
    day: u32,
    part: Part,
)
    requires
        distinct(a),
        distinct(b),
        module_at(a, year, day) == module_at(b, year, day),
    ensures
        resolved_module(a, Selector { year: Some(year), day: Some(day), part: Some(part) })
            == resolved_module(b, Selector { year: Some(year), day: Some(day), part: Some(part) }),
{
    lemma_exact_selector(a, year, day, part);
    lemma_exact_selector(b, year, day, part);
}

/// Without a year in the selector, the year meant is the latest one that
/// any module has: some module has it, and none has a later one.
pub proof fn lemma_default_year_is_latest(infos: Seq<ModuleInfo>, selector: Selector)
    requires
        selector.year is None,
        infos.len() > 0,
    ensures
        resolved_year(infos, selector) is Some,
        is_latest_year(infos, resolved_year(infos, selector)->0),
{
    lemma_latest_year_exists(infos, infos.len() as int);
    assert(infos.take(infos.len() as int) =~= infos);
}

/// Every non-empty beginning of a list has a latest year.
proof fn lemma_latest_year_exists(infos: Seq<ModuleInfo>, n: int)
    requires
        0 < n <= infos.len(),
    ensures
        exists|y: u32| is_latest_year(infos.take(n), y),
    decreases n,
{
    let cur = infos.take(n);
    if n == 1 {
        assert(cur[0].identity.spec_year() == infos[0].identity.spec_year());
        assert(is_latest_year(cur, infos[0].identity.spec_year()));
    } else {
        lemma_latest_year_exists(infos, n - 1);
        let prev = infos.take(n - 1);
        let y = choose|y: u32| is_latest_year(prev, y);
        let last = infos[n - 1].identity.spec_year();
        let best = if last > y { last } else { y };
        let w = choose|i: int| 0 <= i < prev.len() && (#[trigger] prev[i]).identity.spec_year() == y;
        assert(cur[w] == prev[w]);
        assert(cur[n - 1] == infos[n - 1]);
        assert forall|i: int| 0 <= i < cur.len() implies (#[trigger] cur[i]).identity.spec_year()
            <= best by {
            if i < n - 1 {
                assert(cur[i] == prev[i]);
            }
        }
        assert(is_latest_year(cur, best));
    }
}

/// Without a day in the selector, the day meant is the latest among the
/// modules of the year: one of them has it, and none has a later one.
pub proof fn lemma_default_day_is_latest(infos: Seq<ModuleInfo>, selector: Selector, year: u32)
    requires
        selector.day is None,
        resolved_day(infos, selector, year) is Some,
    ensures
        is_latest_day(infos, year, resolved_day(infos, selector, year)->0),
{
}

/// Without a part in the selector, a module with a solver for part 1 only
/// is run on part 1, and a module with both solvers on part 2.
pub proof fn lemma_default_part(info: ModuleInfo, selector: Selector)
    requires
        selector.part is None,
    ensures
        info.part1 && !info.part2 ==> resolved_part(info, selector) == Ok::<Part, ResolveError>(
            Part::One,
        ),
        info.part1 && info.part2 ==> resolved_part(info, selector) == Ok::<Part, ResolveError>(
            Part::Two,
        ),
        !info.part1 && !info.part2 ==> resolved_part(info, selector) == Err::<Part, ResolveError>(
            ResolveError::SolverMissing,
        ),
{
}

/// Asking for a part that the module of that year and day has no solver
/// for is answered with `SolverMissing`.
pub proof fn lemma_missing_solver(infos: Seq<ModuleInfo>, selector: Selector, i: int, part: Part)
    requires
        distinct(infos),
        0 <= i < infos.len(),
        selector.year == Some(infos[i].identity.spec_year()),
        selector.day == Some(infos[i].identity.spec_day()),
        selector.part == Some(part),
        !infos[i].solves(part),
    ensures
        resolution(infos, selector) == Err::<(int, Part), ResolveError>(ResolveError::SolverMissing),
{
    lemma_place_unique(infos, i);
}

/// Two lists with the same modules, in whatever order, have the same
/// members.
pub proof fn lemma_same_members(a: Seq<ModuleInfo>, b: Seq<ModuleInfo>)
    requires
        a.to_multiset() == b.to_multiset(),
    ensures
        forall|i: int| 0 <= i < a.len() ==> b.contains(#[trigger] a[i]),
        forall|j: int| 0 <= j < b.len() ==> a.contains(#[trigger] b[j]),
{
    a.to_multiset_ensures();
    b.to_multiset_ensures();
    assert forall|i: int| 0 <= i < a.len() implies b.contains(#[trigger] a[i]) by {
        assert(a.contains(a[i]));
        assert(b.to_multiset().count(a[i]) > 0);
    }
    assert forall|j: int| 0 <= j < b.len() implies a.contains(#[trigger] b[j]) by {
        assert(b.contains(b[j]));
        assert(a.to_multiset().count(b[j]) > 0);
    }
}

/// A lookup by year and day does not depend on the order of
/// registration.
pub proof fn lemma_lookup_order_independent(
    a: Seq<ModuleInfo>,
    b: Seq<ModuleInfo>,
    year: u32,
    day: u32,
)
    requires
        distinct(a),
        distinct(b),
        a.to_multiset() == b.to_multiset(),
    ensures
        module_at(a, year, day) == module_at(b, year, day),
{
    lemma_same_members(a, b);
    lemma_exact_selector(a, year, day, Part::One);
    lemma_exact_selector(b, year, day, Part::One);
    if module_at(a, year, day) is Some {
        let i = place_of(a, year, day)->0;
        assert(a[i].identity.names(year, day));
        let j = choose|j: int| 0 <= j < b.len() && b[j] == a[i];
        assert(b[j].identity.names(year, day));
    } else if module_at(b, year, day) is Some {
        let j = place_of(b, year, day)->0;
        assert(b[j].identity.names(year, day));
        let i = choose|i: int| 0 <= i < a.len() && a[i] == b[j];
        assert(a[i].identity.names(year, day));
    }
}

/// What a selector settles on does not depend on the order of
/// registration: the same modules in another order give the same module
/// and part, or the same refusal, whatever the selector leaves out.
pub proof fn lemma_resolution_order_independent(
    a: Seq<ModuleInfo>,
    b: Seq<ModuleInfo>,
    selector: Selector,
)
    requires
        distinct(a),
        distinct(b),
        a.to_multiset() == b.to_multiset(),
    ensures
        resolved_module(a, selector) == resolved_module(b, selector),
{
    lemma_same_members(a, b);
    assert forall|y: u32| is_latest_year(a, y) <==> is_latest_year(b, y) by {
        if is_latest_year(a, y) {
            let i = choose|i: int| 0 <= i < a.len() && (#[trigger] a[i]).identity.spec_year() == y;
            let j = choose|j: int| 0 <= j < b.len() && b[j] == a[i];
            assert(b[j].identity.spec_year() == y);
            assert forall|k: int| 0 <= k < b.len() implies (#[trigger] b[k]).identity.spec_year()
                <= y by {
                let m = choose|m: int| 0 <= m < a.len() && a[m] == b[k];
                assert(a[m].identity.spec_year() <= y);
            }
        }
        if is_latest_year(b, y) {
            let j = choose|j: int| 0 <= j < b.len() && (#[trigger] b[j]).identity.spec_year() == y;
            let i = choose|i: int| 0 <= i < a.len() && a[i] == b[j];
            assert(a[i].identity.spec_year() == y);
            assert forall|k: int| 0 <= k < a.len() implies (#[trigger] a[k]).identity.spec_year()
                <= y by {
                let m = choose|m: int| 0 <= m < b.len() && b[m] == a[k];
                assert(b[m].identity.spec_year() <= y);
            }
        }
    }
    assert(latest_year_of(a) == latest_year_of(b)) by {
        if latest_year_of(a) is Some {
            let ya = latest_year_of(a)->0;
            let yb = choose|y: u32| is_latest_year(b, y);
            assert(is_latest_year(a, ya));
            assert(is_latest_year(b, ya));
            assert(is_latest_year(b, yb));
            assert(is_latest_year(a, yb));
        }
    }
    match resolved_year(a, selector) {
        None => {},
        Some(y) => {
            assert forall|d: u32| is_latest_day(a, y, d) <==> is_latest_day(b, y, d) by {
                if is_latest_day(a, y, d) {
                    let i = choose|i: int| 0 <= i < a.len() && (#[trigger] a[i]).identity.names(y, d);
                    let j = choose|j: int| 0 <= j < b.len() && b[j] == a[i];
                    assert(b[j].identity.names(y, d));
                    assert forall|k: int|
                        0 <= k < b.len() && (#[trigger] b[k]).identity.spec_year()
                            == y implies b[k].identity.spec_day() <= d by {
                        let m = choose|m: int| 0 <= m < a.len() && a[m] == b[k];
                        assert(a[m].identity.spec_year() == y);
                    }
                }
                if is_latest_day(b, y, d) {
                    let j = choose|j: int| 0 <= j < b.len() && (#[trigger] b[j]).identity.names(y, d);
                    let i = choose|i: int| 0 <= i < a.len() && a[i] == b[j];
                    assert(a[i].identity.names(y, d));
                    assert forall|k: int|
                        0 <= k < a.len() && (#[trigger] a[k]).identity.spec_year()
                            == y implies a[k].identity.spec_day() <= d by {
                        let m = choose|m: int| 0 <= m < b.len() && b[m] == a[k];
                        assert(b[m].identity.spec_year() == y);
                    }
                }
            }
            assert(latest_day_of(a, y) == latest_day_of(b, y)) by {
                if latest_day_of(a, y) is Some {
                    let da = latest_day_of(a, y)->0;
                    let db = choose|d: u32| is_latest_day(b, y, d);
                    assert(is_latest_day(a, y, da));
                    assert(is_latest_day(b, y, da));
                    assert(is_latest_day(b, y, db));
                    assert(is_latest_day(a, y, db));
                }
            }
            match resolved_day(a, selector, y) {
                None => {},
                Some(d) => {
                    lemma_lookup_order_independent(a, b, y, d);
                },
            }
        },
    }
}

} // verus!
