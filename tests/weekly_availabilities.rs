use slotwise::interval::{clash_check, first_clash, AvailabilityWindow};
use slotwise::store::{UpdateOutcome, WeeklyTemplateStore};
use slotwise::template::{
    validate_range, NormalizedAvailabilityDay, TemplateError, WeeklyAvailabilitiesCreateUpdateParams,
    WeeklyAvailability,
};

#[test]
fn test_out_of_range() {
    let mut store = WeeklyTemplateStore::new();
    let first = store.create(1, -10, 1000);
    assert!(first.is_err());
    let second = store.create(1, 0, 10081);
    assert!(second.is_err());
    let third = store.create(1, 800, 700);
    assert!(third.is_err());
    assert!(store.find_by_owner(1, &[]).is_empty());
}

#[test]
fn test_clash() {
    let mut store = WeeklyTemplateStore::new();
    let first = store.create(2, 800, 1000);
    assert!(first.is_ok());
    let from_clash = store.create(2, 900, 1200);
    assert!(from_clash.is_err());
    let to_clash = store.create(2, 600, 900);
    assert!(to_clash.is_err());
    let wrap_clash = store.create(2, 600, 1200);
    assert!(wrap_clash.is_err());
    let inner_clash = store.create(2, 850, 900);
    assert!(inner_clash.is_err());
}

#[test]
fn bounds_errors_name_the_rule() {
    assert_eq!(validate_range(-10, 1000), Err(TemplateError::OutOfRange));
    assert_eq!(validate_range(0, 10081), Err(TemplateError::OutOfRange));
    assert_eq!(validate_range(800, 700), Err(TemplateError::EmptyRange));
    assert_eq!(validate_range(800, 800), Err(TemplateError::EmptyRange));
    assert_eq!(validate_range(0, 10080), Ok(()));
}

#[test]
fn overlap_error_carries_the_conflicting_template() {
    let mut store = WeeklyTemplateStore::new();
    let first = store.create(2, 800, 1000).unwrap();
    assert_eq!(first, WeeklyAvailability { id: 1, user_id: 2, from: 800, to: 1000 });
    assert_eq!(store.create(2, 900, 1200), Err(TemplateError::Overlap(first)));
    assert_eq!(store.create(2, 600, 900), Err(TemplateError::Overlap(first)));
    assert_eq!(store.create(2, 600, 1200), Err(TemplateError::Overlap(first)));
    assert_eq!(store.create(2, 850, 900), Err(TemplateError::Overlap(first)));
    assert_eq!(store.find_by_owner(2, &[]), vec![first]);
}

#[test]
fn touching_templates_and_other_owners_do_not_clash() {
    let mut store = WeeklyTemplateStore::new();
    assert!(store.create(2, 800, 1000).is_ok());
    assert!(store.create(2, 1000, 1200).is_ok());
    assert!(store.create(2, 600, 800).is_ok());
    assert!(store.create(3, 850, 900).is_ok());
    let froms: Vec<i32> = store.find_by_owner(2, &[]).iter().map(|t| t.from).collect();
    assert_eq!(froms, vec![600, 800, 1000]);
    let others = store.find_by_owner(3, &[]);
    assert_eq!(others.len(), 1);
    assert_eq!(others[0].from, 850);
}

#[test]
fn find_by_owner_leaves_out_excluded_ids() {
    let mut store = WeeklyTemplateStore::new();
    let a = store.create(2, 800, 1000).unwrap();
    let b = store.create(2, 100, 200).unwrap();
    assert_eq!(store.find_by_owner(2, &[a.id]), vec![b]);
    assert_eq!(store.find_by_owner(2, &[]), vec![b, a]);
}

#[test]
fn update_moves_a_template_and_skips_itself_in_the_check() {
    let mut store = WeeklyTemplateStore::new();
    let a = store.create(2, 800, 1000).unwrap();
    let b = store.create(2, 1200, 1300).unwrap();
    let moved = store.update(2, a.id, 900, 1100).unwrap();
    assert_eq!(
        moved,
        UpdateOutcome::Updated(WeeklyAvailability { id: a.id, user_id: 2, from: 900, to: 1100 })
    );
    let clash = store.update(2, a.id, 1100, 1250).unwrap();
    assert_eq!(
        clash,
        UpdateOutcome::Clash(WeeklyAvailability { id: a.id, user_id: 2, from: 900, to: 1100 })
    );
    let froms: Vec<i32> = store.find_by_owner(2, &[]).iter().map(|t| t.from).collect();
    assert_eq!(froms, vec![900, 1200]);
    assert_eq!(store.update(2, 99, 0, 10), Err(TemplateError::NotFound));
    assert_eq!(store.update(3, b.id, 0, 10), Err(TemplateError::NotFound));
    assert_eq!(store.update(2, b.id, -1, 10), Err(TemplateError::OutOfRange));
    let earlier = store.update(2, b.id, 0, 10).unwrap();
    assert_eq!(
        earlier,
        UpdateOutcome::Updated(WeeklyAvailability { id: b.id, user_id: 2, from: 0, to: 10 })
    );
    let froms: Vec<i32> = store.find_by_owner(2, &[]).iter().map(|t| t.from).collect();
    assert_eq!(froms, vec![0, 900]);
}

#[test]
fn delete_removes_only_the_owners_template() {
    let mut store = WeeklyTemplateStore::new();
    let a = store.create(2, 800, 1000).unwrap();
    assert_eq!(store.delete(3, a.id), Err(TemplateError::NotFound));
    assert_eq!(store.delete(2, a.id), Ok(a));
    assert!(store.find_by_owner(2, &[]).is_empty());
    assert_eq!(store.delete(2, a.id), Err(TemplateError::NotFound));
    assert!(store.create(2, 850, 900).is_ok());
}

#[test]
fn random_creates_never_leave_an_overlap() {
    let mut store = WeeklyTemplateStore::new();
    let mut seed: u64 = 12345;
    for _ in 0..300 {
        seed = seed.wrapping_mul(6364136223846793005).wrapping_add(1442695040888963407);
        let from = ((seed >> 33) % 10100) as i32 - 10;
        seed = seed.wrapping_mul(6364136223846793005).wrapping_add(1442695040888963407);
        let len = ((seed >> 33) % 400) as i32;
        let owner = ((seed >> 20) % 3) as i64;
        let _ = store.create(owner, from, from + len);
    }
    for owner in 0..3 {
        let ts = store.find_by_owner(owner, &[]);
        for i in 0..ts.len() {
            assert!(0 <= ts[i].from && ts[i].from < ts[i].to && ts[i].to <= 10080);
            for j in 0..ts.len() {
                if i != j {
                    assert!(ts[i].to <= ts[j].from || ts[j].to <= ts[i].from);
                }
            }
        }
    }
}

#[test]
fn clash_rules_on_half_open_windows() {
    let base = vec![AvailabilityWindow { start: 800, end: 1000 }];
    assert!(clash_check(&AvailabilityWindow { start: 900, end: 1200 }, &base));
    assert!(clash_check(&AvailabilityWindow { start: 600, end: 900 }, &base));
    assert!(clash_check(&AvailabilityWindow { start: 600, end: 1200 }, &base));
    assert!(clash_check(&AvailabilityWindow { start: 850, end: 900 }, &base));
    assert!(!clash_check(&AvailabilityWindow { start: 1000, end: 1200 }, &base));
    assert!(!clash_check(&AvailabilityWindow { start: 600, end: 800 }, &base));
    assert!(!clash_check(&AvailabilityWindow { start: 600, end: 800 }, &Vec::<AvailabilityWindow>::new()));
    let several = vec![AvailabilityWindow { start: 0, end: 10 }, AvailabilityWindow { start: 20, end: 30 }];
    assert_eq!(first_clash(&AvailabilityWindow { start: 25, end: 40 }, &several), Some(1));
    assert_eq!(first_clash(&AvailabilityWindow { start: 10, end: 20 }, &several), None);
}

#[test]
fn weekday_params_compare_in_minutes_of_the_week() {
    let params = WeeklyAvailabilitiesCreateUpdateParams {
        normalized: NormalizedAvailabilityDay { from: 60, to: 120 },
        weekday: 1,
    };
    let stored = vec![WeeklyAvailability { id: 1, user_id: 2, from: 1500, to: 1600 }];
    assert!(clash_check(&params, &stored));
    let stored = vec![WeeklyAvailability { id: 1, user_id: 2, from: 60, to: 120 }];
    assert!(!clash_check(&params, &stored));
}

#[test]
fn created_ids_are_fresh_after_deletes() {
    let mut store = WeeklyTemplateStore::new();
    let a = store.create(2, 0, 10).unwrap();
    let b = store.create(2, 20, 30).unwrap();
    assert!(store.delete(2, b.id).is_ok());
    let c = store.create(2, 20, 30).unwrap();
    assert!(c.id != a.id && c.id != b.id);
}
