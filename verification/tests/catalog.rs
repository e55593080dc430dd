use xaoc::catalog::Entry;
use xaoc::{BuildError, Catalog, DayData, ModuleInfo, Part, ResolveError, Resolution, Selector};

fn info(year: u32, day: u32, part1: bool, part2: bool) -> ModuleInfo {
    ModuleInfo::new(DayData::new(year, day), part1, part2)
}

fn catalog_of(infos: &[ModuleInfo]) -> Catalog<usize> {
    let mut catalog = Catalog::new();
    for (i, m) in infos.iter().enumerate() {
        let _ = catalog.register(*m, i);
    }
    catalog
}

#[test]
fn new_catalog_is_empty() {
    let catalog: Catalog<u8> = Catalog::new();
    assert_eq!(catalog.len(), 0);
    assert!(catalog.is_empty());
    assert_eq!(catalog.position(2021, 1), None);
    assert_eq!(catalog.latest_year(), None);
    assert_eq!(catalog.latest_day(2021), None);
    assert_eq!(catalog.info(0), None);
    assert_eq!(catalog.get(0), None);
}

#[test]
fn register_adds_a_module() {
    let mut catalog = Catalog::new();
    assert_eq!(catalog.register(info(2021, 12, true, false), "a"), Ok(()));
    assert_eq!(catalog.len(), 1);
    assert!(!catalog.is_empty());
    assert!(catalog.contains(DayData::new(2021, 12)));
    assert!(!catalog.contains(DayData::new(2021, 13)));
    assert_eq!(catalog.position(2021, 12), Some(0));
    assert_eq!(catalog.info(0), Some(info(2021, 12, true, false)));
    assert_eq!(catalog.get(0), Some(&"a"));
    assert_eq!(catalog.get(1), None);
}

#[test]
fn register_refuses_a_second_module_of_the_same_day() {
    let mut catalog = Catalog::new();
    assert_eq!(catalog.register(info(2021, 12, true, false), "first"), Ok(()));
    assert_eq!(
        catalog.register(info(2021, 12, true, true), "second"),
        Err(BuildError::DuplicateIdentity(DayData::new(2021, 12)))
    );
    assert_eq!(catalog.len(), 1);
    assert_eq!(catalog.get(0), Some(&"first"));
    assert_eq!(catalog.info(0), Some(info(2021, 12, true, false)));
}

#[test]
fn catalog_size_is_the_number_of_distinct_identities() {
    let decls = [
        info(2020, 1, true, false),
        info(2021, 1, true, true),
        info(2020, 1, false, false),
        info(2020, 2, true, false),
        info(2021, 1, false, true),
    ];
    assert_eq!(catalog_of(&decls).len(), 3);
}

#[test]
fn catalog_size_does_not_depend_on_the_order() {
    let a = [info(2019, 1, true, true), info(2020, 5, true, false), info(2021, 25, false, false)];
    let orders: [[usize; 3]; 6] = [[0, 1, 2], [0, 2, 1], [1, 0, 2], [1, 2, 0], [2, 0, 1], [2, 1, 0]];
    for order in orders {
        let shuffled = [a[order[0]], a[order[1]], a[order[2]]];
        let catalog = catalog_of(&shuffled);
        assert_eq!(catalog.len(), 3);
        for m in a {
            assert!(catalog.contains(m.identity));
            let at = catalog.position(m.identity.year(), m.identity.day()).unwrap();
            assert_eq!(catalog.info(at), Some(m));
        }
    }
}

#[test]
fn position_finds_each_module_whatever_the_order() {
    let catalog = catalog_of(&[info(2021, 2, true, true), info(2020, 2, true, true), info(2021, 1, true, true)]);
    assert_eq!(catalog.position(2021, 2), Some(0));
    assert_eq!(catalog.position(2020, 2), Some(1));
    assert_eq!(catalog.position(2021, 1), Some(2));
    assert_eq!(catalog.position(2020, 1), None);
    assert_eq!(catalog.position(2, 2021), None);
}

#[test]
fn latest_year_and_day() {
    let catalog = catalog_of(&[
        info(2020, 25, true, true),
        info(2021, 3, true, true),
        info(2019, 7, true, true),
        info(2021, 1, true, true),
    ]);
    assert_eq!(catalog.latest_year(), Some(2021));
    assert_eq!(catalog.latest_day(2021), Some(3));
    assert_eq!(catalog.latest_day(2020), Some(25));
    assert_eq!(catalog.latest_day(2019), Some(7));
    assert_eq!(catalog.latest_day(2018), None);
}

#[test]
fn latest_day_zero_is_a_day() {
    let catalog = catalog_of(&[info(0, 0, true, true)]);
    assert_eq!(catalog.latest_year(), Some(0));
    assert_eq!(catalog.latest_day(0), Some(0));
}

#[test]
fn collect_gathers_all_contributions() {
    let entries = vec![
        Entry { info: info(2021, 2, true, false), module: "b" },
        Entry { info: info(2021, 1, true, true), module: "a" },
    ];
    let catalog = Catalog::collect(entries).unwrap();
    assert_eq!(catalog.len(), 2);
    assert_eq!(catalog.get(0), Some(&"b"));
    assert_eq!(catalog.get(1), Some(&"a"));
    assert_eq!(catalog.info(1), Some(info(2021, 1, true, true)));
}

#[test]
fn collect_of_nothing_is_the_empty_catalog() {
    let catalog: Catalog<u8> = Catalog::collect(Vec::new()).unwrap();
    assert!(catalog.is_empty());
}

#[test]
fn collect_stops_at_the_first_repeat() {
    let entries = vec![
        Entry { info: info(2021, 2, true, false), module: 0 },
        Entry { info: info(2021, 1, true, true), module: 1 },
        Entry { info: info(2021, 2, false, false), module: 2 },
        Entry { info: info(2021, 1, false, false), module: 3 },
    ];
    match Catalog::collect(entries) {
        Err(e) => assert_eq!(e, BuildError::DuplicateIdentity(DayData::new(2021, 2))),
        Ok(_) => panic!("a repeated identity was accepted"),
    }
}

#[test]
fn module_info_parts() {
    let only1 = info(2021, 1, true, false);
    assert!(only1.has_part(Part::One));
    assert!(!only1.has_part(Part::Two));
    assert_eq!(only1.last_part(), Some(Part::One));
    let both = info(2021, 1, true, true);
    assert_eq!(both.last_part(), Some(Part::Two));
    let only2 = info(2021, 1, false, true);
    assert_eq!(only2.last_part(), Some(Part::Two));
    let none = info(2021, 1, false, false);
    assert_eq!(none.last_part(), None);
}

#[test]
fn resolve_exact_selector_finds_the_module() {
    let catalog = catalog_of(&[info(2020, 1, true, true), info(2021, 12, true, true), info(2021, 13, true, false)]);
    assert_eq!(
        catalog.resolve(&Selector::exact(2021, 12, Part::One)),
        Ok(Resolution { index: 1, identity: DayData::new(2021, 12), part: Part::One })
    );
    assert_eq!(
        catalog.resolve(&Selector::exact(2021, 12, Part::Two)),
        Ok(Resolution { index: 1, identity: DayData::new(2021, 12), part: Part::Two })
    );
}

#[test]
fn resolve_exact_selector_not_found() {
    let catalog = catalog_of(&[info(2020, 1, true, true), info(2021, 12, true, true)]);
    assert_eq!(catalog.resolve(&Selector::exact(2021, 1, Part::One)), Err(ResolveError::NotFound));
    assert_eq!(catalog.resolve(&Selector::exact(2019, 12, Part::One)), Err(ResolveError::NotFound));
    let empty: Catalog<usize> = Catalog::new();
    assert_eq!(empty.resolve(&Selector::exact(2021, 12, Part::One)), Err(ResolveError::NotFound));
}

#[test]
fn resolve_exact_selector_ignores_other_modules() {
    let alone = catalog_of(&[info(2021, 12, true, false)]);
    let crowded = catalog_of(&[
        info(2022, 1, true, true),
        info(2021, 11, true, true),
        info(2021, 12, true, false),
        info(2021, 13, false, true),
    ]);
    for part in [Part::One, Part::Two] {
        let a = alone.resolve(&Selector::exact(2021, 12, part)).map(|r| (r.identity, r.part));
        let b = crowded.resolve(&Selector::exact(2021, 12, part)).map(|r| (r.identity, r.part));
        assert_eq!(a, b);
    }
}

#[test]
fn resolve_default_year_is_the_latest() {
    let catalog = catalog_of(&[info(2019, 4, true, true), info(2021, 4, true, true), info(2020, 4, true, true)]);
    let selector = Selector { year: None, day: Some(4), part: Some(Part::One) };
    assert_eq!(
        catalog.resolve(&selector),
        Ok(Resolution { index: 1, identity: DayData::new(2021, 4), part: Part::One })
    );
}

#[test]
fn resolve_default_day_is_the_latest_of_the_year() {
    let catalog = catalog_of(&[
        info(2021, 2, true, true),
        info(2020, 25, true, true),
        info(2021, 7, true, true),
        info(2021, 5, true, true),
    ]);
    let latest = Selector { year: None, day: None, part: Some(Part::Two) };
    assert_eq!(
        catalog.resolve(&latest),
        Ok(Resolution { index: 2, identity: DayData::new(2021, 7), part: Part::Two })
    );
    let of_2020 = Selector { year: Some(2020), day: None, part: Some(Part::Two) };
    assert_eq!(
        catalog.resolve(&of_2020),
        Ok(Resolution { index: 1, identity: DayData::new(2020, 25), part: Part::Two })
    );
}

#[test]
fn resolve_default_year_with_a_day_that_it_lacks() {
    let catalog = catalog_of(&[info(2020, 9, true, true), info(2021, 1, true, true)]);
    let selector = Selector { year: None, day: Some(9), part: None };
    assert_eq!(catalog.resolve(&selector), Err(ResolveError::NotFound));
}

#[test]
fn resolve_default_part() {
    let catalog = catalog_of(&[info(2021, 1, true, false), info(2021, 2, true, true), info(2021, 3, false, true)]);
    let day = |d: u32| Selector { year: Some(2021), day: Some(d), part: None };
    assert_eq!(catalog.resolve(&day(1)).map(|r| r.part), Ok(Part::One));
    assert_eq!(catalog.resolve(&day(2)).map(|r| r.part), Ok(Part::Two));
    assert_eq!(catalog.resolve(&day(3)).map(|r| r.part), Ok(Part::Two));
}

#[test]
fn resolve_missing_solver() {
    let catalog = catalog_of(&[info(2021, 1, true, false), info(2021, 2, false, false)]);
    assert_eq!(catalog.resolve(&Selector::exact(2021, 1, Part::Two)), Err(ResolveError::SolverMissing));
    assert_eq!(catalog.resolve(&Selector::exact(2021, 2, Part::One)), Err(ResolveError::SolverMissing));
    let no_part = Selector { year: Some(2021), day: Some(2), part: None };
    assert_eq!(catalog.resolve(&no_part), Err(ResolveError::SolverMissing));
}

#[test]
fn resolve_on_the_empty_catalog() {
    let catalog: Catalog<usize> = Catalog::new();
    assert_eq!(catalog.resolve(&Selector::any()), Err(ResolveError::NotFound));
    let year_only = Selector { year: Some(2021), day: None, part: None };
    assert_eq!(catalog.resolve(&year_only), Err(ResolveError::NotFound));
}

#[test]
fn resolve_with_nothing_set_takes_the_latest_of_everything() {
    let catalog = catalog_of(&[info(2019, 25, true, true), info(2021, 1, true, false), info(2020, 25, true, true)]);
    assert_eq!(
        catalog.resolve(&Selector::any()),
        Ok(Resolution { index: 1, identity: DayData::new(2021, 1), part: Part::One })
    );
}

#[test]
fn resolved_index_leads_to_the_module() {
    let mut catalog = Catalog::new();
    catalog.register(info(2020, 1, true, true), "old").unwrap();
    catalog.register(info(2021, 1, true, true), "new").unwrap();
    let found = catalog.resolve(&Selector::any()).unwrap();
    assert_eq!(catalog.get(found.index), Some(&"new"));
    assert_eq!(catalog.info(found.index).map(|m| m.identity), Some(found.identity));
}
