use farm_os::capacity::{capacity_by_date, remaining_capacity, CapacityOrder, CapacityRow, CapacityTray};

fn tray(state: &str, quantity: i64, sown: Option<i64>, growth: Option<i64>) -> CapacityTray {
    CapacityTray { state: state.to_string(), quantity, sown_day: sown, growth_days: growth }
}

fn order(day: i64, consumed: i64) -> CapacityOrder {
    CapacityOrder { harvest_day: day, capacity_consumed: consumed }
}

#[test]
fn capacity_is_counted_per_exact_harvest_date() {
    let trays = vec![
        tray("light", 3, Some(100), Some(10)),
        tray("sown", 2, Some(104), Some(6)),
        tray("blackout", 4, Some(101), Some(10)),
        // Gone from the shelf, or with no sowing day or growth time: no capacity.
        tray("harvested", 5, Some(100), Some(10)),
        tray("discarded", 7, Some(100), Some(10)),
        tray("planned", 9, None, Some(10)),
        tray("planned", 9, Some(100), None),
    ];
    let orders = vec![order(110, 2), order(110, 1), order(120, 4)];
    let rows = capacity_by_date(&trays, &orders);
    assert_eq!(
        rows,
        vec![
            CapacityRow { harvest_day: 110, trays: 5, sold_trays: 3, remaining_trays: 2 },
            CapacityRow { harvest_day: 111, trays: 4, sold_trays: 0, remaining_trays: 4 },
            CapacityRow { harvest_day: 120, trays: 0, sold_trays: 4, remaining_trays: -4 },
        ]
    );
    assert_eq!(remaining_capacity(&trays, &orders, 110), 2);
    assert_eq!(remaining_capacity(&trays, &orders, 111), 4);
    assert_eq!(remaining_capacity(&trays, &orders, 120), -4);
    // A day with no row has nothing ready and nothing sold.
    assert_eq!(remaining_capacity(&trays, &orders, 112), 0);
}

#[test]
fn an_empty_farm_has_no_capacity_rows() {
    assert!(capacity_by_date(&vec![], &vec![]).is_empty());
    assert_eq!(remaining_capacity(&vec![], &vec![], 5), 0);
}

#[test]
fn only_paid_orders_hold_capacity() {
    // The orders handed in are the confirmed paid ones; with none, all is free.
    let trays = vec![tray("light", 6, Some(200), Some(8))];
    assert_eq!(remaining_capacity(&trays, &vec![], 208), 6);
    assert_eq!(remaining_capacity(&trays, &vec![order(208, 6)], 208), 0);
    assert_eq!(remaining_capacity(&trays, &vec![order(208, 7)], 208), -1);
}
