use rust_accounts::{DbId, Error, RelatedParties, RelatedPartiesCache};

fn corpus() -> Vec<(DbId, String)> {
    vec![
        (DbId::of_usize(1), "SMITH-J".to_string()),
        (DbId::of_usize(2), "SMITH-K".to_string()),
    ]
}

#[test]
fn grows_until_descriptors_differ() {
    let descrs = corpus();
    let mut rp = RelatedParties::new(3, 7, 2);
    assert_eq!(rp.find_item_with_collisions("SMITH-J"), Some(DbId::none()));

    rp.add_new_cache(&descrs).unwrap();
    assert_eq!(rp.find_item_with_collisions("SMI"), Some(DbId::none()));
    assert_eq!(rp.find_item_with_collisions("SMITH-J"), Some(DbId::none()));

    rp.add_new_cache(&descrs).unwrap();
    assert_eq!(rp.find_item_with_collisions("SMITH"), Some(DbId::none()));

    rp.add_new_cache(&descrs).unwrap();
    assert_eq!(rp.num_levels(), 3);
    assert_eq!(rp.find_item_with_collisions("SMITH-J"), Some(DbId::of_usize(1)));
    assert_eq!(rp.find_item_with_collisions("SMITH-K"), Some(DbId::of_usize(2)));
    assert_eq!(rp.find_item_with_collisions("SMITH-J 05FEB25"), Some(DbId::of_usize(1)));

    assert!(matches!(rp.add_new_cache(&descrs), Err(Error::CacheExhausted)));
    assert_eq!(rp.num_levels(), 3);
}

#[test]
fn unique_match_survives_growth() {
    let descrs = vec![
        (DbId::of_usize(1), "JONES-A".to_string()),
        (DbId::of_usize(2), "SMITH-K".to_string()),
    ];
    let mut rp = RelatedParties::new(3, 7, 2);
    rp.add_new_cache(&descrs).unwrap();
    assert_eq!(rp.find_item_with_collisions("JONES-X"), Some(DbId::of_usize(1)));
    rp.add_new_cache(&descrs).unwrap();
    rp.add_new_cache(&descrs).unwrap();
    assert_eq!(rp.find_item_with_collisions("JONES-X"), Some(DbId::of_usize(1)));
}

#[test]
fn no_match_and_short_text() {
    let mut rp = RelatedParties::new(3, 7, 2);
    rp.add_new_cache(&corpus()).unwrap();
    assert_eq!(rp.find_item_with_collisions("BROWN"), None);
    assert_eq!(rp.find_item_with_collisions("SM"), None);
}

#[test]
fn level_lookup_and_same_entity_twice() {
    let descrs = vec![
        (DbId::of_usize(4), "ACME LTD".to_string()),
        (DbId::of_usize(4), "ACME LIMITED".to_string()),
        (DbId::of_usize(5), "BETA".to_string()),
    ];
    let c = RelatedPartiesCache::create(4, &descrs).ok().unwrap();
    assert_eq!(c.descr_len(), 4);
    assert_eq!(c.find_item("ACME anything"), Some(DbId::of_usize(4)));
    assert_eq!(c.find_item("BETA"), Some(DbId::of_usize(5)));
    assert_eq!(c.find_item("BET"), None);
}

#[test]
fn too_short_descriptor_is_an_error_only_when_alone() {
    let alone = vec![(DbId::of_usize(1), "AB".to_string()), (DbId::of_usize(2), "ABCDEF".to_string())];
    match RelatedPartiesCache::create(4, &alone) {
        Err(Error::DescriptorTooShort(k)) => assert_eq!(k, DbId::of_usize(1)),
        _ => panic!("expected a short descriptor error"),
    }
    let with_other = vec![
        (DbId::of_usize(1), "AB".to_string()),
        (DbId::of_usize(1), "ABCDEF".to_string()),
    ];
    let c = RelatedPartiesCache::create(4, &with_other).ok().unwrap();
    assert_eq!(c.find_item("ABCD"), Some(DbId::of_usize(1)));
}
