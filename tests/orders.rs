use marketplace::error::ServiceError;
use marketplace::order::{order_total, NewOrder, OrderItemRequest};
use marketplace::status::OrderStatus;
use marketplace::store::OrderStore;

fn new_order(user_id: u128, name: &str, items: Vec<OrderItemRequest>) -> NewOrder {
    NewOrder {
        user_id,
        customer_name: name.to_string(),
        customer_email: Some("test@example.com".to_string()),
        customer_phone: "1234567890".to_string(),
        delivery_address: "Test Address".to_string(),
        city: "Douala".to_string(),
        region: "Littoral".to_string(),
        items,
    }
}

fn item(product_id: u128, quantity: u32, price: u64) -> OrderItemRequest {
    OrderItemRequest { product_id, quantity, price }
}

#[test]
fn order_test_create_order() {
    let mut store = OrderStore::new();
    let order = store
        .create_order(new_order(7, "Test Customer", vec![item(1, 2, 5000)]), 100, &vec![101], 1_000)
        .unwrap();
    assert_eq!(order.customer_name, "Test Customer");
    assert_eq!(order.status.as_str(), "pending");
    assert_eq!(order.total, 10000);
    assert_eq!(order.id, 100);
    assert_eq!(order.created_at, 1_000);
}

#[test]
fn order_test_get_order_by_id() {
    let mut store = OrderStore::new();
    store
        .create_order(new_order(7, "Test Customer", vec![item(1, 1, 10000)]), 42, &vec![1], 5)
        .unwrap();
    let order = store.get_order_by_id(42).unwrap();
    assert_eq!(order.id, 42);
    assert_eq!(order.status.as_str(), "pending");
    assert!(store.get_order_by_id(43).is_none());
}

#[test]
fn order_test_update_order_status() {
    let mut store = OrderStore::new();
    store
        .create_order(new_order(7, "Test Customer", vec![item(1, 1, 10000)]), 42, &vec![1], 5)
        .unwrap();
    let order = store.update_order_status(42, OrderStatus::Processing).unwrap();
    assert_eq!(order.status, OrderStatus::Processing);
    assert_eq!(store.get_order_by_id(42).unwrap().status, OrderStatus::Processing);
}

#[test]
fn order_test_list_orders() {
    let mut store = OrderStore::new();
    store
        .create_order(new_order(9, "Customer 1", vec![item(1, 1, 10000)]), 1, &vec![11], 100)
        .unwrap();
    store
        .create_order(new_order(9, "Customer 2", vec![item(2, 1, 20000)]), 2, &vec![12], 200)
        .unwrap();
    store
        .create_order(new_order(8, "Someone Else", vec![item(2, 1, 20000)]), 3, &vec![13], 300)
        .unwrap();
    let orders = store.list_orders(Some(9), None);
    assert_eq!(orders.len(), 2);
    // newest first
    assert_eq!(orders[0].customer_name, "Customer 2");
    assert_eq!(orders[1].customer_name, "Customer 1");
}

#[test]
fn order_test_get_order_items() {
    let mut store = OrderStore::new();
    store
        .create_order(new_order(7, "Test Customer", vec![item(1, 2, 5000), item(2, 1, 3000)]), 42, &vec![1, 2], 5)
        .unwrap();
    let items = store.get_order_items(42);
    assert_eq!(items.len(), 2);
    assert_eq!(items[0].quantity, 2);
    assert_eq!(items[1].quantity, 1);
    assert_eq!(items[0].unit_price, 5000);
    assert_eq!(items[1].unit_price, 3000);
    assert_eq!(items[0].order_id, 42);
}

#[test]
fn order_test_delete_order() {
    let mut store = OrderStore::new();
    store
        .create_order(new_order(7, "Test Customer", vec![item(1, 2, 5000), item(2, 1, 3000)]), 42, &vec![1, 2], 5)
        .unwrap();
    store
        .create_order(new_order(7, "Other", vec![item(3, 1, 100)]), 43, &vec![3], 6)
        .unwrap();
    assert!(store.delete_order(42).is_ok());
    assert!(store.get_order_items(42).is_empty());
    assert!(store.get_order_by_id(42).is_none());
    assert_eq!(store.get_order_items(43).len(), 1);
    assert!(matches!(store.delete_order(42), Err(ServiceError::NotFound(_))));
}

#[test]
fn total_is_sum_of_quantity_times_price() {
    let items = vec![item(1, 3, 250), item(2, 4, 1000), item(3, 1, 7)];
    assert_eq!(order_total(&items).unwrap(), 3 * 250 + 4 * 1000 + 7);
}

#[test]
fn empty_order_is_rejected_and_nothing_stored() {
    let mut store = OrderStore::new();
    let r = store.create_order(new_order(7, "A", vec![]), 1, &vec![], 5);
    assert!(matches!(r, Err(ServiceError::Validation(_))));
    assert!(store.get_order_by_id(1).is_none());
    assert!(store.list_orders(None, None).is_empty());
}

#[test]
fn zero_quantity_is_rejected() {
    let mut store = OrderStore::new();
    let r = store.create_order(new_order(7, "A", vec![item(1, 1, 10), item(2, 0, 10)]), 1, &vec![1, 2], 5);
    assert!(matches!(r, Err(ServiceError::Validation(_))));
    assert!(store.get_order_by_id(1).is_none());
}

#[test]
fn total_beyond_range_is_rejected() {
    let items = vec![item(1, 2, u64::MAX / 2 + 1)];
    assert!(matches!(order_total(&items), Err(ServiceError::Validation(_))));
    let items = vec![item(1, 1, u64::MAX), item(2, 1, 1)];
    assert!(matches!(order_total(&items), Err(ServiceError::Validation(_))));
    let items = vec![item(1, 1, u64::MAX)];
    assert_eq!(order_total(&items).unwrap(), u64::MAX);
}

#[test]
fn failed_item_insert_leaves_no_rows() {
    let mut store = OrderStore::new();
    store
        .create_order(new_order(7, "First", vec![item(1, 1, 10)]), 1, &vec![500], 5)
        .unwrap();
    // the second line item clashes with a stored one: the whole order is refused
    let r = store.create_order(new_order(7, "Second", vec![item(1, 1, 10), item(2, 1, 10)]), 2, &vec![501, 500], 6);
    assert!(matches!(r, Err(ServiceError::DatabaseError(_))));
    assert!(store.get_order_by_id(2).is_none());
    assert!(store.get_order_items(2).is_empty());
    assert_eq!(store.list_orders(None, None).len(), 1);
    // two line items of one order with the same id are refused as well
    let r = store.create_order(new_order(7, "Third", vec![item(1, 1, 10), item(2, 1, 10)]), 3, &vec![600, 600], 7);
    assert!(matches!(r, Err(ServiceError::DatabaseError(_))));
    assert!(store.get_order_items(3).is_empty());
}

#[test]
fn duplicate_order_id_is_rejected() {
    let mut store = OrderStore::new();
    store.create_order(new_order(7, "First", vec![item(1, 1, 10)]), 1, &vec![10], 5).unwrap();
    let r = store.create_order(new_order(7, "Again", vec![item(1, 1, 10)]), 1, &vec![11], 6);
    assert!(matches!(r, Err(ServiceError::DatabaseError(_))));
    assert_eq!(store.get_order_by_id(1).unwrap().customer_name, "First");
}

#[test]
fn invalid_transitions_are_rejected() {
    let mut store = OrderStore::new();
    store.create_order(new_order(7, "A", vec![item(1, 1, 10)]), 1, &vec![10], 5).unwrap();
    assert!(matches!(store.update_order_status(1, OrderStatus::Shipped), Err(ServiceError::Validation(_))));
    assert_eq!(store.get_order_by_id(1).unwrap().status, OrderStatus::Pending);
    assert!(store.update_order_status(1, OrderStatus::Processing).is_ok());
    assert!(store.update_order_status(1, OrderStatus::Shipped).is_ok());
    assert!(store.update_order_status(1, OrderStatus::Delivered).is_ok());
    assert!(matches!(store.update_order_status(1, OrderStatus::Cancelled), Err(ServiceError::Validation(_))));
    assert!(matches!(store.update_order_status(99, OrderStatus::Processing), Err(ServiceError::NotFound(_))));
}

#[test]
fn two_item_scenario() {
    let mut store = OrderStore::new();
    let order = store
        .create_order(new_order(7, "A", vec![item(0xA, 2, 1500), item(0xB, 1, 3000)]), 1, &vec![10, 11], 5)
        .unwrap();
    assert_eq!(order.total, 6000);
    let pending = store.list_orders(None, Some(OrderStatus::Pending));
    assert!(pending.iter().any(|o| o.id == 1));
    assert!(store.update_order_status(1, OrderStatus::Processing).is_ok());
    assert!(store.update_order_status(1, OrderStatus::Shipped).is_ok());
    assert!(matches!(store.update_order_status(1, OrderStatus::Pending), Err(ServiceError::Validation(_))));
    assert_eq!(store.get_order_by_id(1).unwrap().status, OrderStatus::Shipped);
}

#[test]
fn filters_combine() {
    let mut store = OrderStore::new();
    store.create_order(new_order(1, "a", vec![item(1, 1, 10)]), 1, &vec![10], 5).unwrap();
    store.create_order(new_order(1, "b", vec![item(1, 1, 10)]), 2, &vec![11], 3).unwrap();
    store.create_order(new_order(2, "c", vec![item(1, 1, 10)]), 3, &vec![12], 4).unwrap();
    store.update_order_status(1, OrderStatus::Cancelled).unwrap();
    let all = store.list_orders(None, None);
    let times: Vec<i64> = all.iter().map(|o| o.created_at).collect();
    assert_eq!(times, vec![5, 4, 3]);
    let r = store.list_orders(Some(1), Some(OrderStatus::Pending));
    assert_eq!(r.len(), 1);
    assert_eq!(r[0].id, 2);
    let r = store.list_orders(None, Some(OrderStatus::Cancelled));
    assert_eq!(r.len(), 1);
    assert_eq!(r[0].id, 1);
}

#[test]
fn place_order_draws_ids() {
    let mut store = OrderStore::new();
    let a = store.place_order(new_order(1, "a", vec![item(1, 2, 10)])).unwrap();
    let b = store.place_order(new_order(1, "b", vec![item(1, 3, 10)])).unwrap();
    assert_ne!(a.id, b.id);
    assert_eq!(a.total, 20);
    assert_eq!(b.total, 30);
    assert_eq!(store.get_order_items(a.id).len(), 1);
    assert!(matches!(store.place_order(new_order(1, "c", vec![])), Err(ServiceError::Validation(_))));
}

#[test]
fn item_id_count_must_match() {
    let mut store = OrderStore::new();
    let r = store.create_order(new_order(7, "A", vec![item(1, 1, 10), item(2, 1, 10)]), 1, &vec![10], 5);
    assert!(matches!(r, Err(ServiceError::Validation(_))));
    assert!(store.get_order_by_id(1).is_none());
}
