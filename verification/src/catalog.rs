//! The catalog: every registered module, each under its own year and day.

use vstd::prelude::*;
use crate::error::BuildError;
use crate::identity::DayData;
use crate::part::Part;

verus! {

/// What the catalog knows of a module without knowing its types: its
/// identity, and which of the two parts it has a solver for.
#[derive(Clone, Copy, Debug, PartialEq, Eq, Structural)]
pub struct ModuleInfo {
    pub identity: DayData,
    pub part1: bool,
    pub part2: bool,
}

impl ModuleInfo {
    /// Whether the module has a solver for `part`.
    pub open spec fn solves(&self, part: Part) -> bool {
        match part {
            Part::One => self.part1,
            Part::Two => self.part2,
        }
    }

    /// The highest part that the module has a solver for.
    pub open spec fn spec_last_part(&self) -> Option<Part> {
        if self.part2 {
            Some(Part::Two)
        } else if self.part1 {
            Some(Part::One)
        } else {
            None
        }
    }

    #[must_use]
    pub fn new(identity: DayData, part1: bool, part2: bool) -> (r: ModuleInfo)
        ensures
            r == (ModuleInfo { identity, part1, part2 }),
    {
        ModuleInfo { identity, part1, part2 }
    }

    #[verifier::when_used_as_spec(solves)]
    pub fn has_part(&self, part: Part) -> (r: bool)
        ensures
            r == self.solves(part),
    {
        match part {
            Part::One => self.part1,
            Part::Two => self.part2,
        }
    }

    /// Part 2 where it has a solver, else part 1 where that has one.
    #[verifier::when_used_as_spec(spec_last_part)]
    pub fn last_part(&self) -> (r: Option<Part>)
        ensures
            r == self.spec_last_part(),
    {
        if self.part2 {
            Some(Part::Two)
        } else if self.part1 {
            Some(Part::One)
        } else {
            None
        }
    }
}

/// One contribution to the catalog: what is known of a module, and the
/// module itself in whatever form the program runs it.
#[derive(Debug)]
pub struct Entry<M> {
    pub info: ModuleInfo,
    pub module: M,
}

/// Whether some module of `infos` has the identity `id`.
pub open spec fn holds(infos: Seq<ModuleInfo>, id: DayData) -> bool {
    exists|i: int| 0 <= i < infos.len() && (#[trigger] infos[i]).identity == id
}

/// Whether no two modules of `infos` share their identity.
pub open spec fn distinct(infos: Seq<ModuleInfo>) -> bool {
    forall|i: int, j: int|
        0 <= i < j < infos.len() ==> (#[trigger] infos[i]).identity != (#[trigger] infos[j]).identity
}

/// The list after one more registration: a module whose identity is
/// already held is refused and changes nothing.
pub open spec fn with_registered(infos: Seq<ModuleInfo>, info: ModuleInfo) -> Seq<ModuleInfo> {
    if holds(infos, info.identity) {
        infos
    } else {
        infos.push(info)
    }
}

/// The list that registering `decls` into `start` leaves, one after
/// another in their order.
pub open spec fn after_registering(start: Seq<ModuleInfo>, decls: Seq<ModuleInfo>) -> Seq<
    ModuleInfo,
>
    decreases decls.len(),
{
    if decls.len() == 0 {
        start
    } else {
        with_registered(after_registering(start, decls.drop_last()), decls.last())
    }
}

/// The identities that the modules of `infos` have.
pub open spec fn identities(infos: Seq<ModuleInfo>) -> Set<DayData> {
    infos.map_values(|m: ModuleInfo| m.identity).to_set()
}

/// What each contribution says of its module.
pub open spec fn infos_of<M>(entries: Seq<Entry<M>>) -> Seq<ModuleInfo> {
    entries.map_values(|e: Entry<M>| e.info)
}

/// The module of each contribution.
pub open spec fn modules_of<M>(entries: Seq<Entry<M>>) -> Seq<M> {
    entries.map_values(|e: Entry<M>| e.module)
}

/// Whether `j` is the first place of `infos` whose identity an earlier
/// place has already.
pub open spec fn is_first_repeat(infos: Seq<ModuleInfo>, j: int) -> bool {
    &&& 0 <= j < infos.len()
    &&& distinct(infos.take(j))
    &&& holds(infos.take(j), infos[j].identity)
}

/// The place of the module with the given year and day, if one is held.
pub open spec fn place_of(infos: Seq<ModuleInfo>, year: u32, day: u32) -> Option<int> {
    if exists|i: int| 0 <= i < infos.len() && (#[trigger] infos[i]).identity.names(year, day) {
        Some(choose|i: int| 0 <= i < infos.len() && (#[trigger] infos[i]).identity.names(year, day))
    } else {
        None
    }
}

/// Whether `y` is the latest year that any module of `infos` has.
pub open spec fn is_latest_year(infos: Seq<ModuleInfo>, y: u32) -> bool {
    &&& exists|i: int| 0 <= i < infos.len() && (#[trigger] infos[i]).identity.spec_year() == y
    &&& forall|i: int| 0 <= i < infos.len() ==> (#[trigger] infos[i]).identity.spec_year() <= y
}

/// The latest year that any module has; none where there is no module.
pub open spec fn latest_year_of(infos: Seq<ModuleInfo>) -> Option<u32> {
    if exists|y: u32| is_latest_year(infos, y) {
        Some(choose|y: u32| is_latest_year(infos, y))
    } else {
        None
    }
}

/// Whether `d` is the latest day among the modules of year `year`.
pub open spec fn is_latest_day(infos: Seq<ModuleInfo>, year: u32, d: u32) -> bool {
    &&& exists|i: int| 0 <= i < infos.len() && (#[trigger] infos[i]).identity.names(year, d)
    &&& forall|i: int|
        0 <= i < infos.len() && (#[trigger] infos[i]).identity.spec_year() == year
            ==> infos[i].identity.spec_day() <= d
}

/// The latest day among the modules of year `year`; none where that year
/// has no module.
pub open spec fn latest_day_of(infos: Seq<ModuleInfo>, year: u32) -> Option<u32> {
    if exists|d: u32| is_latest_day(infos, year, d) {
        Some(choose|d: u32| is_latest_day(infos, year, d))
    } else {
        None
    }
}

/// The modules of a program, gathered from wherever they are defined.
/// No two of them share year and day.
#[derive(Debug)]
pub struct Catalog<M> {
    entries: Vec<Entry<M>>,
}

impl<M> View for Catalog<M> {
    type V = Seq<ModuleInfo>;

    /// What is known of each module, in the order of registration.
    closed spec fn view(&self) -> Seq<ModuleInfo> {
        infos_of(self.entries@)
    }
}

impl<M> Catalog<M> {
    #[verifier::type_invariant]
    spec fn inv(&self) -> bool {
        distinct(self@)
    }

    /// The modules themselves, in the order of registration.
    pub closed spec fn modules(&self) -> Seq<M> {
        modules_of(self.entries@)
    }

    /// The empty catalog.
    #[must_use]
    pub fn new() -> (r: Self)
        ensures
            r@ == Seq::<ModuleInfo>::empty(),
            r.modules() == Seq::<M>::empty(),
            distinct(r@),
    {
        let r = Catalog { entries: Vec::new() };
        assert(r@ =~= Seq::<ModuleInfo>::empty());
        assert(r.modules() =~= Seq::<M>::empty());
        r
    }

    /// The number of modules held. No two of them share year and day.
    pub fn len(&self) -> (n: usize)
        ensures
            n == self@.len(),
            n == self.modules().len(),
            distinct(self@),
    {
        proof {
            use_type_invariant(self);
        }
        self.entries.len()
    }

    pub fn is_empty(&self) -> (r: bool)
        ensures
            r == (self@.len() == 0),
    {
        self.entries.len() == 0
    }

    /// Where the module with the given year and day stands.
    pub fn position(&self, year: u32, day: u32) -> (r: Option<usize>)
        ensures
            match r {
                Some(i) => place_of(self@, year, day) == Some(i as int) && i < self@.len()
                    && self@[i as int].identity.names(year, day),
                None => place_of(self@, year, day) is None,
            },
            distinct(self@),
    {
        proof {
            use_type_invariant(self);
        }
        let mut i: usize = 0;
        while i < self.entries.len()
            invariant
                i <= self.entries.len(),
                self@.len() == self.entries.len(),
                distinct(self@),
                forall|j: int| 0 <= j < i ==> !(#[trigger] self@[j]).identity.names(year, day),
            decreases self.entries.len() - i,
        {
            if self.entries[i].info.identity.is(year, day) {
                proof {
                    assert(self@[i as int] == self.entries[i as int].info);
                    let k = choose|k: int|
                        0 <= k < self@.len() && (#[trigger] self@[k]).identity.names(year, day);
                    assert(k == i) by {
                        DayData::lemma_identity_by_fields(self@[k].identity, self@[i as int].identity);
                        if k < i {
                            assert(!self@[k].identity.names(year, day));
                        } else if i < k {
                            assert(self@[i as int].identity != self@[k].identity);
                        }
                    }
                }
                return Some(i);
            }
            assert(self@[i as int] == self.entries[i as int].info);
            i = i + 1;
        }
        None
    }

    /// Whether a module with this identity is held.
    pub fn contains(&self, id: DayData) -> (r: bool)
        ensures
            r == holds(self@, id),
    {
        match self.position(id.year(), id.day()) {
            Some(i) => {
                proof {
                    DayData::lemma_identity_by_fields(self@[i as int].identity, id);
                }
                true
            },
            None => {
                proof {
                    if holds(self@, id) {
                        let k = choose|k: int| 0 <= k < self@.len() && (#[trigger] self@[k]).identity == id;
                        assert(self@[k].identity.names(id.spec_year(), id.spec_day()));
                    }
                }
                false
            },
        }
    }

    /// What is known of the module at `index`.
    pub fn info(&self, index: usize) -> (r: Option<ModuleInfo>)
        ensures
            r == if index < self@.len() {
                Some(self@[index as int])
            } else {
                None
            },
    {
        if index < self.entries.len() {
            Some(self.entries[index].info)
        } else {
            None
        }
    }

    /// The module at `index`.
    pub fn get(&self, index: usize) -> (r: Option<&M>)
        ensures
            self.modules().len() == self@.len(),
            match r {
                Some(m) => index < self.modules().len() && *m == self.modules()[index as int],
                None => index >= self.modules().len(),
            },
    {
        if index < self.entries.len() {
            Some(&self.entries[index].module)
        } else {
            None
        }
    }

    /// The latest year that any module has.
    pub fn latest_year(&self) -> (r: Option<u32>)
        ensures
            r == latest_year_of(self@),
    {
        if self.entries.len() == 0 {
            return None;
        }
        let mut best: u32 = self.entries[0].info.identity.year();
        assert(self@[0] == self.entries[0].info);
        let mut i: usize = 1;
        while i < self.entries.len()
            invariant
                1 <= i <= self.entries.len(),
                self@.len() == self.entries.len(),
                exists|j: int| 0 <= j < i && (#[trigger] self@[j]).identity.spec_year() == best,
                forall|j: int| 0 <= j < i ==> (#[trigger] self@[j]).identity.spec_year() <= best,
            decreases self.entries.len() - i,
        {
            let y = self.entries[i].info.identity.year();
            assert(self@[i as int] == self.entries[i as int].info);
            if y > best {
                best = y;
            }
            i = i + 1;
        }
        proof {
            assert(is_latest_year(self@, best));
            let other = choose|y: u32| is_latest_year(self@, y);
            assert(other == best);
        }
        Some(best)
    }

    /// The latest day among the modules of the given year.
    pub fn latest_day(&self, year: u32) -> (r: Option<u32>)
        ensures
            r == latest_day_of(self@, year),
    {
        let mut best: Option<u32> = None;
        let mut i: usize = 0;
        while i < self.entries.len()
            invariant
                i <= self.entries.len(),
                self@.len() == self.entries.len(),
                match best {
                    Some(d) => exists|j: int| 0 <= j < i && (#[trigger] self@[j]).identity.names(year, d),
                    None => forall|j: int|
                        0 <= j < i ==> (#[trigger] self@[j]).identity.spec_year() != year,
                },
                forall|j: int|
                    0 <= j < i && (#[trigger] self@[j]).identity.spec_year() == year ==> best is Some
                        && self@[j].identity.spec_day() <= best->0,
            decreases self.entries.len() - i,
        {
            let id = self.entries[i].info.identity;
            assert(self@[i as int] == self.entries[i as int].info);
            if id.year() == year {
                let better = match best {
                    Some(d) => id.day() > d,
                    None => true,
                };
                if better {
                    best = Some(id.day());
                }
            }
            i = i + 1;
        }
        proof {
            match best {
                Some(d) => {
                    assert(is_latest_day(self@, year, d));
                    let other = choose|d: u32| is_latest_day(self@, year, d);
                    assert(other == d);
                },
                None => {
                    assert forall|d: u32| !is_latest_day(self@, year, d) by {}
                },
            }
        }
        best
    }

    /// Adds a module. One whose year and day are already taken is refused,
    /// and the catalog stays as it was.
    pub fn register(&mut self, info: ModuleInfo, module: M) -> (r: Result<(), BuildError>)
        ensures
            final(self)@ == with_registered(old(self)@, info),
            distinct(final(self)@),
            final(self).modules().len() == final(self)@.len(),
            match r {
                Ok(_) => !holds(old(self)@, info.identity) && final(self).modules() == old(
                    self,
                ).modules().push(module),
                Err(e) => holds(old(self)@, info.identity) && e == BuildError::DuplicateIdentity(
                    info.identity,
                ) && final(self).modules() == old(self).modules(),
            },
    {
        proof {
            use_type_invariant(&*self);
        }
        if self.contains(info.identity) {
            return Err(BuildError::DuplicateIdentity(info.identity));
        }
        let ghost before = self@;
        let ghost before_modules = self.modules();
        let mut entries = Vec::new();
        core::mem::swap(&mut entries, &mut self.entries);
        entries.push(Entry { info, module });
        proof {
            let after = infos_of(entries@);
            assert(after =~= before.push(info));
            assert(modules_of(entries@) =~= before_modules.push(module));
            assert forall|i: int, j: int| 0 <= i < j < after.len() implies (#[trigger] after[i]).identity
                != (#[trigger] after[j]).identity by {
                if j < before.len() {
                    assert(before[i].identity != before[j].identity);
                } else {
                    assert(before[i] == after[i]);
                }
            }
        }
        self.entries = entries;
        Ok(())
    }

    /// Gathers the contributions of a whole program into one catalog, in
    /// their order. The first contribution that repeats the identity of an
    /// earlier one ends the attempt.
    pub fn collect(contributions: Vec<Entry<M>>) -> (r: Result<Self, BuildError>)
        ensures
            match r {
                Ok(c) => {
                    &&& distinct(infos_of(contributions@))
                    &&& c@ == infos_of(contributions@)
                    &&& c.modules() == modules_of(contributions@)
                },
                Err(e) => exists|j: int|
                    #[trigger] is_first_repeat(infos_of(contributions@), j) && e
                        == BuildError::DuplicateIdentity(infos_of(contributions@)[j].identity),
            },
    {
        let ghost all = infos_of(contributions@);
        let ghost all_modules = modules_of(contributions@);
        let mut catalog = Catalog::new();
        for e in it: contributions
            invariant
                all == infos_of(it.seq()),
                all_modules == modules_of(it.seq()),
                catalog@ == all.take(it.index() as int),
                catalog.modules() == all_modules.take(it.index() as int),
                distinct(catalog@),
        {
            let ghost k = it.index() as int;
            assert(all[k] == e.info);
            assert(all_modules[k] == e.module);
            let info = e.info;
            match catalog.register(info, e.module) {
                Ok(_) => {
                    assert(all.take(k + 1) =~= all.take(k).push(all[k]));
                    assert(all_modules.take(k + 1) =~= all_modules.take(k).push(all_modules[k]));
                },
                Err(err) => {
                    assert(is_first_repeat(all, k));
                    return Err(err);
                },
            }
        }
        assert(all.take(all.len() as int) =~= all);
        assert(all_modules.take(all_modules.len() as int) =~= all_modules);
        Ok(catalog)
    }
}

/// An identity belongs to `identities(infos)` exactly when some module of
/// `infos` has it.
pub proof fn lemma_identities_are_held(infos: Seq<ModuleInfo>)
    ensures
        identities(infos).finite(),
        forall|id: DayData| #[trigger] identities(infos).contains(id) <==> holds(infos, id),
{
    let ids = infos.map_values(|m: ModuleInfo| m.identity);
    vstd::seq_lib::seq_to_set_is_finite(ids);
    assert forall|id: DayData| #[trigger] identities(infos).contains(id) <==> holds(infos, id) by {
        if identities(infos).contains(id) {
            let i = choose|i: int| 0 <= i < ids.len() && ids[i] == id;
            assert(infos[i].identity == id);
        }
        if holds(infos, id) {
            let i = choose|i: int| 0 <= i < infos.len() && (#[trigger] infos[i]).identity == id;
            assert(ids[i] == id);
        }
    }
}

/// Modules of distinct identities are as many as their identities.
pub proof fn lemma_distinct_count(infos: Seq<ModuleInfo>)
    requires
        distinct(infos),
    ensures
        identities(infos).len() == infos.len(),
{
    let ids = infos.map_values(|m: ModuleInfo| m.identity);
    assert forall|i: int, j: int| 0 <= i < ids.len() && 0 <= j < ids.len() && i != j implies ids[i]
        != ids[j] by {
        if i < j {
            assert(infos[i].identity != infos[j].identity);
        } else {
            assert(infos[j].identity != infos[i].identity);
        }
    }
    ids.unique_seq_to_set();
}

/// Registering keeps the identities distinct, and the identities held
/// afterwards are those held before together with those declared.
pub proof fn lemma_after_registering(start: Seq<ModuleInfo>, decls: Seq<ModuleInfo>)
    requires
        distinct(start),
    ensures
        distinct(after_registering(start, decls)),
        identities(after_registering(start, decls)) == identities(start).union(identities(decls)),
    decreases decls.len(),
{
    let after = after_registering(start, decls);
    lemma_identities_are_held(start);
    lemma_identities_are_held(decls);
    lemma_identities_are_held(after);
    if decls.len() == 0 {
        assert(identities(after) =~= identities(start).union(identities(decls)));
    } else {
        let rest = decls.drop_last();
        let last = decls.last();
        let before = after_registering(start, rest);
        lemma_after_registering(start, rest);
        lemma_identities_are_held(rest);
        lemma_identities_are_held(before);
        if !holds(before, last.identity) {
            assert forall|i: int, j: int| 0 <= i < j < after.len() implies (#[trigger] after[i]).identity
                != (#[trigger] after[j]).identity by {
                if j < before.len() {
                    assert(before[i].identity != before[j].identity);
                } else {
                    assert(before[i] == after[i]);
                }
            }
        }
        assert forall|id: DayData|
            identities(after).contains(id) <==> identities(start).union(identities(decls)).contains(
                id,
            ) by {
            if holds(after, id) {
                let i = choose|i: int| 0 <= i < after.len() && (#[trigger] after[i]).identity == id;
                if i < before.len() {
                    assert(before[i] == after[i]);
                    assert(holds(before, id));
                    assert(identities(before).contains(id));
                    if holds(rest, id) {
                        let k = choose|k: int| 0 <= k < rest.len() && (#[trigger] rest[k]).identity == id;
                        assert(decls[k] == rest[k]);
                        assert(holds(decls, id));
                    }
                } else {
                    assert(after[i] == last);
                    assert(decls[decls.len() - 1].identity == id);
                    assert(holds(decls, id));
                }
            }
            if holds(start, id) {
                assert(identities(before).contains(id));
                let i = choose|i: int| 0 <= i < before.len() && (#[trigger] before[i]).identity == id;
                assert(after[i] == before[i]);
                assert(holds(after, id));
            }
            if holds(decls, id) {
                let k = choose|k: int| 0 <= k < decls.len() && (#[trigger] decls[k]).identity == id;
                if k < rest.len() {
                    assert(rest[k] == decls[k]);
                    assert(holds(rest, id));
                    assert(identities(before).contains(id));
                    let i = choose|i: int| 0 <= i < before.len() && (#[trigger] before[i]).identity == id;
                    assert(after[i] == before[i]);
                    assert(holds(after, id));
                } else {
                    if holds(before, last.identity) {
                        let i = choose|i: int|
                            0 <= i < before.len() && (#[trigger] before[i]).identity == last.identity;
                        assert(after[i] == before[i]);
                        assert(holds(after, id));
                    } else {
                        assert(after[after.len() - 1] == last);
                        assert(holds(after, id));
                    }
                }
            }
        }
        assert(identities(after) =~= identities(start).union(identities(decls)));
    }
}

/// However many modules are declared, and however often an identity is
/// declared again, the catalog that registering them fills holds as many
/// modules as there are distinct identities among the declarations.
pub proof fn lemma_size_counts_identities(decls: Seq<ModuleInfo>)
    ensures
        after_registering(Seq::empty(), decls).len() == identities(decls).len(),
        identities(after_registering(Seq::empty(), decls)) == identities(decls),
        distinct(after_registering(Seq::empty(), decls)),
{
    let start = Seq::<ModuleInfo>::empty();
    lemma_after_registering(start, decls);
    lemma_identities_are_held(start);
    assert(identities(start).union(identities(decls)) =~= identities(decls));
    lemma_distinct_count(after_registering(start, decls));
}

/// The size of the catalog does not depend on the order of registration:
/// the same declarations in another order fill a catalog of the same size,
/// with the same identities.
pub proof fn lemma_size_order_independent(a: Seq<ModuleInfo>, b: Seq<ModuleInfo>)
    requires
        a.to_multiset() == b.to_multiset(),
    ensures
        after_registering(Seq::empty(), a).len() == after_registering(Seq::empty(), b).len(),
        identities(after_registering(Seq::empty(), a)) == identities(
            after_registering(Seq::empty(), b),
        ),
{
    lemma_size_counts_identities(a);
    lemma_size_counts_identities(b);
    lemma_identities_are_held(a);
    lemma_identities_are_held(b);
    a.to_multiset_ensures();
    b.to_multiset_ensures();
    assert forall|id: DayData| identities(a).contains(id) <==> identities(b).contains(id) by {
        if holds(a, id) {
            let i = choose|i: int| 0 <= i < a.len() && (#[trigger] a[i]).identity == id;
            assert(a.contains(a[i]));
            assert(b.to_multiset().count(a[i]) > 0);
            assert(b.contains(a[i]));
            let j = choose|j: int| 0 <= j < b.len() && b[j] == a[i];
            assert(b[j].identity == id);
        }
        if holds(b, id) {
            let i = choose|i: int| 0 <= i < b.len() && (#[trigger] b[i]).identity == id;
            assert(b.contains(b[i]));
            assert(a.to_multiset().count(b[i]) > 0);
            assert(a.contains(b[i]));
            let j = choose|j: int| 0 <= j < a.len() && a[j] == b[i];
            assert(a[j].identity == id);
        }
    }
    assert(identities(a) =~= identities(b));
}

} // verus!
