use marketplace::error::ServiceError;
use marketplace::order::{NewOrder, OrderItemRequest};
use marketplace::payment::{CreatePaymentResponse, GatewayFailure, GatewayStatus, PaymentMode};
use marketplace::status::{OrderStatus, PaymentStatus};
use marketplace::store::OrderStore;

fn store_with_order(order_id: u128, price: u64) -> OrderStore {
    let mut store = OrderStore::new();
    let order = NewOrder {
        user_id: 1,
        customer_name: "Test Customer".to_string(),
        customer_email: None,
        customer_phone: "654988322".to_string(),
        delivery_address: "Test Address".to_string(),
        city: "Yaounde".to_string(),
        region: "Centre".to_string(),
        items: vec![OrderItemRequest { product_id: 5, quantity: 1, price }],
    };
    store.create_order(order, order_id, &vec![order_id + 1000], 10).unwrap();
    store
}

#[test]
fn test_create_payment() {
    let mut store = store_with_order(7, 100);
    let request = store.prepare_payment(7, PaymentMode::Direct).unwrap();
    assert_eq!(request.amount, 100);
    assert_eq!(request.order_id, 7);
    let payment = store.record_payment(&request, Ok("tx-1".to_string()), 70, 20).unwrap();
    assert_eq!(payment.order_id, 7);
    assert_eq!(payment.status.as_str(), "pending");
    assert_eq!(payment.amount, 100);
    assert_eq!(payment.transaction_id, "tx-1");
    assert_eq!(payment.payment_method, PaymentMode::Direct);
}

#[test]
fn test_get_payment_by_id() {
    let mut store = store_with_order(7, 100);
    let request = store.prepare_payment(7, PaymentMode::Direct).unwrap();
    store.record_payment(&request, Ok("tx-1".to_string()), 70, 20).unwrap();
    let payment = store.get_payment_by_id(70).unwrap();
    assert_eq!(payment.id, 70);
    assert_eq!(payment.order_id, 7);
    assert!(store.get_payment_by_id(71).is_none());
    assert_eq!(store.get_payment_by_order_id(7).unwrap().id, 70);
    assert!(store.get_payment_by_order_id(8).is_none());
}

#[test]
fn test_update_payment_status() {
    let mut store = store_with_order(7, 100);
    let request = store.prepare_payment(7, PaymentMode::Direct).unwrap();
    store.record_payment(&request, Ok("tx-1".to_string()), 70, 20).unwrap();
    let payment = store.update_payment_status(70, PaymentStatus::Success, 30).unwrap();
    assert_eq!(payment.status.as_str(), "success");
    assert_eq!(payment.updated_at, 30);
    assert_eq!(payment.created_at, 20);
    assert_eq!(store.get_order_by_id(7).unwrap().status, OrderStatus::Processing);
    // a repeated notification changes nothing
    assert!(store.update_payment_status(70, PaymentStatus::Success, 40).is_ok());
    assert_eq!(store.get_payment_by_id(70).unwrap().updated_at, 30);
    assert!(matches!(store.update_payment_status(70, PaymentStatus::Failure, 50), Err(ServiceError::Validation(_))));
    assert!(matches!(store.update_payment_status(71, PaymentStatus::Failure, 50), Err(ServiceError::NotFound(_))));
}

#[test]
fn external_reference_is_order_id_text() {
    let store = store_with_order(0x1234, 100);
    let request = store.prepare_payment(0x1234, PaymentMode::Indirect).unwrap();
    assert_eq!(request.external_reference, "00000000-0000-0000-0000-000000001234");
    assert_eq!(uuid::Uuid::from_u128(0x1234).to_string(), request.external_reference);
    assert_eq!(request.mode, PaymentMode::Indirect);
}

#[test]
fn payment_for_missing_order_is_not_found() {
    let mut store = store_with_order(7, 100);
    assert!(matches!(store.prepare_payment(8, PaymentMode::Direct), Err(ServiceError::NotFound(_))));
    let request = store.prepare_payment(7, PaymentMode::Direct).unwrap();
    store.delete_order(7).unwrap();
    let r = store.record_payment(&request, Ok("tx-1".to_string()), 70, 20);
    assert!(matches!(r, Err(ServiceError::NotFound(_))));
    assert!(store.get_payment_by_id(70).is_none());
}

#[test]
fn second_payment_after_success_is_rejected() {
    let mut store = store_with_order(7, 100);
    let request = store.prepare_payment(7, PaymentMode::Direct).unwrap();
    store.record_payment(&request, Ok("tx-1".to_string()), 70, 20).unwrap();
    store.reconcile(&"tx-1".to_string(), GatewayStatus::Successful, 25).unwrap();
    assert!(matches!(store.prepare_payment(7, PaymentMode::Direct), Err(ServiceError::Validation(_))));
    let r = store.record_payment(&request, Ok("tx-2".to_string()), 71, 30);
    assert!(matches!(r, Err(ServiceError::Validation(_))));
    assert!(store.get_payment_by_id(71).is_none());
}

#[test]
fn pending_payment_blocks_a_second_one() {
    let mut store = store_with_order(7, 100);
    let request = store.prepare_payment(7, PaymentMode::Direct).unwrap();
    store.record_payment(&request, Ok("tx-1".to_string()), 70, 20).unwrap();
    assert!(matches!(store.prepare_payment(7, PaymentMode::Direct), Err(ServiceError::Validation(_))));
    // once it fails, a new attempt is allowed
    store.reconcile(&"tx-1".to_string(), GatewayStatus::Failed, 25).unwrap();
    assert_eq!(store.get_payment_by_id(70).unwrap().status, PaymentStatus::Failure);
    assert_eq!(store.get_order_by_id(7).unwrap().status, OrderStatus::Pending);
    assert!(store.prepare_payment(7, PaymentMode::Direct).is_ok());
}

#[test]
fn success_report_advances_order() {
    let mut store = store_with_order(7, 100);
    let request = store.prepare_payment(7, PaymentMode::Direct).unwrap();
    store.record_payment(&request, Ok("tx-1".to_string()), 70, 20).unwrap();
    let p = store.reconcile(&"tx-1".to_string(), GatewayStatus::Pending, 21).unwrap();
    assert_eq!(p.status, PaymentStatus::Pending);
    let p = store.reconcile(&"tx-1".to_string(), GatewayStatus::Successful, 22).unwrap();
    assert_eq!(p.status, PaymentStatus::Success);
    assert_eq!(p.updated_at, 22);
    assert_eq!(store.get_order_by_id(7).unwrap().status, OrderStatus::Processing);
    // a late or repeated report is ignored
    let p = store.reconcile(&"tx-1".to_string(), GatewayStatus::Expired, 23).unwrap();
    assert_eq!(p.status, PaymentStatus::Success);
    assert_eq!(p.updated_at, 22);
    assert!(matches!(store.reconcile(&"tx-9".to_string(), GatewayStatus::Successful, 24), Err(ServiceError::NotFound(_))));
}

#[test]
fn gateway_timeout_then_retry() {
    let mut store = store_with_order(7, 100);
    let request = store.prepare_payment(7, PaymentMode::Direct).unwrap();
    let r = store.record_payment(&request, Err(GatewayFailure::Timeout), 70, 20);
    assert!(matches!(r, Err(ServiceError::GatewayError(_))));
    assert!(store.get_payment_by_order_id(7).is_none());
    assert_eq!(store.get_order_by_id(7).unwrap().status, OrderStatus::Pending);
    let request = store.prepare_payment(7, PaymentMode::Direct).unwrap();
    let p = store.record_payment(&request, Ok("tx-2".to_string()), 70, 21).unwrap();
    assert_eq!(p.status, PaymentStatus::Pending);
}

#[test]
fn gateway_refusal_records_nothing() {
    let mut store = store_with_order(7, 100);
    let request = store.prepare_payment(7, PaymentMode::Direct).unwrap();
    let r = store.record_payment(&request, Err(GatewayFailure::Rejected("bad phone".to_string())), 70, 20);
    assert!(matches!(r, Err(ServiceError::GatewayError(_))));
    let r = store.record_payment(&request, Err(GatewayFailure::Unreachable("dns".to_string())), 70, 20);
    assert!(matches!(r, Err(ServiceError::GatewayError(_))));
    assert!(store.get_payment_by_id(70).is_none());
}

#[test]
fn amount_and_ids_are_checked_on_record() {
    let mut store = store_with_order(7, 100);
    let mut request = store.prepare_payment(7, PaymentMode::Direct).unwrap();
    request.amount = 99;
    assert!(matches!(store.record_payment(&request, Ok("tx-1".to_string()), 70, 20), Err(ServiceError::Validation(_))));
    request.amount = 100;
    store.record_payment(&request, Ok("tx-1".to_string()), 70, 20).unwrap();
    store.reconcile(&"tx-1".to_string(), GatewayStatus::Failed, 21).unwrap();
    assert!(matches!(store.record_payment(&request, Ok("tx-2".to_string()), 70, 22), Err(ServiceError::DatabaseError(_))));
    assert!(matches!(store.record_payment(&request, Ok("tx-1".to_string()), 71, 22), Err(ServiceError::DatabaseError(_))));
    assert!(store.record_payment(&request, Ok("tx-2".to_string()), 71, 22).is_ok());
}

#[test]
fn paid_order_is_not_reused_as_id_after_delete() {
    let mut store = store_with_order(7, 100);
    let request = store.prepare_payment(7, PaymentMode::Direct).unwrap();
    store.record_payment(&request, Ok("tx-1".to_string()), 70, 20).unwrap();
    store.delete_order(7).unwrap();
    // the payment survives the order
    assert_eq!(store.get_payment_by_id(70).unwrap().order_id, 7);
    let order = NewOrder {
        user_id: 1,
        customer_name: "X".to_string(),
        customer_email: None,
        customer_phone: "1".to_string(),
        delivery_address: "Y".to_string(),
        city: "Z".to_string(),
        region: "W".to_string(),
        items: vec![OrderItemRequest { product_id: 5, quantity: 1, price: 1 }],
    };
    assert!(matches!(store.create_order(order, 7, &vec![9999], 30), Err(ServiceError::DatabaseError(_))));
}

#[test]
fn indirect_payment_returns_link() {
    let mut store = store_with_order(7, 100);
    let request = store.prepare_payment(7, PaymentMode::Indirect).unwrap();
    let resp = CreatePaymentResponse {
        payment_link: "https://pay.example/abc".to_string(),
        transaction_id: "tx-abc".to_string(),
        date_initiated: "2024-01-01".to_string(),
    };
    let ip = store.record_indirect_payment(&request, Ok(resp)).unwrap();
    assert_eq!(ip.payment_link, "https://pay.example/abc");
    assert_eq!(ip.payment.transaction_id, "tx-abc");
    assert_eq!(ip.payment.payment_method, PaymentMode::Indirect);
    assert_eq!(ip.payment.amount, 100);
    let r = store.record_indirect_payment(&request, Err(GatewayFailure::Timeout));
    assert!(matches!(r, Err(ServiceError::GatewayError(_))));
}

#[test]
fn create_payment_draws_id() {
    let mut store = store_with_order(7, 100);
    let request = store.prepare_payment(7, PaymentMode::Direct).unwrap();
    let p = store.create_payment(&request, Ok("tx-1".to_string())).unwrap();
    assert_eq!(store.get_payment_by_id(p.id).unwrap().transaction_id, "tx-1");
    assert!(matches!(store.create_payment(&request, Err(GatewayFailure::Timeout)), Err(ServiceError::GatewayError(_))));
}

#[test]
fn payment_details_are_replaced() {
    let mut store = store_with_order(7, 100);
    let request = store.prepare_payment(7, PaymentMode::Direct).unwrap();
    let p = store.record_payment(&request, Ok("tx-1".to_string()), 70, 20).unwrap();
    assert!(p.details.is_none());
    let p = store.update_payment_details(70, "{\"card_brand\":\"visa\"}".to_string(), 25).unwrap();
    assert_eq!(p.details.as_deref(), Some("{\"card_brand\":\"visa\"}"));
    assert_eq!(p.updated_at, 25);
    assert_eq!(p.status, PaymentStatus::Pending);
    assert_eq!(store.get_payment_by_id(70).unwrap().details, p.details);
    assert!(matches!(store.update_payment_details(71, String::new(), 25), Err(ServiceError::NotFound(_))));
}
