use operation_center::catalog::StatusRequest;
use operation_center::commissions::{
    commission_rate, create_provider, create_settlement_batch, new_commission_rule, new_provider,
    product_type, reverse_commission, save_commission_rule, settle_commissions,
    settlement_batch_id,
    take_back_commission, CommissionEntry, CommissionRule, CreateSettlementBatchRequest,
    ProviderRecord, SaveCommissionRuleRequest, SaveProviderRequest,
};
use operation_center::customers::{
    create_customer, new_customer, update_customer, update_customer_status, CreateCustomerRequest,
    CustomerRecord,
};
use operation_center::finance::{
    finance_summary, summarize, summarize_at, OrderBalance, Receipt,
};
use operation_center::orders::{
    can_count_payment, cancel_order, create_order, default_deployment_type, new_order,
    record_payment, record_payment_at, take_payment, update_order, CreateOrderRequest, OrderLineItem, OrderRecord,
    RecordPaymentRequest, TransactionRecord,
};

fn s(text: &str) -> String {
    text.to_string()
}

fn customer(id: &str, status: &str) -> CustomerRecord {
    CustomerRecord {
        customer_id: s(id),
        name: s("客户一"),
        contact_name: s(""),
        contact_phone: s(""),
        contact_email: s(""),
        status: s(status),
        notes: s(""),
        created_at: 5,
    }
}

fn provider(id: &str, status: &str) -> ProviderRecord {
    ProviderRecord {
        provider_id: s(id),
        name: s("服务商"),
        contact_name: s(""),
        contact_phone: s(""),
        status: s(status),
        created_at: 5,
    }
}

fn item(kind: &str, quantity: u32, price: i64) -> OrderLineItem {
    OrderLineItem {
        kind: s(kind),
        reference_id: None,
        title: s("商品"),
        quantity,
        unit_price_cents: price,
        entitlement_days: Some(30),
    }
}

fn order_request(items: Vec<OrderLineItem>) -> CreateOrderRequest {
    CreateOrderRequest {
        customer_id: s(" cus_1 "),
        items,
        due_at: Some(99),
        deployment_type: s("saas"),
        notes: s("  备注 "),
        provider_id: None,
    }
}

fn order(status: &str, total: i64, received: i64) -> OrderRecord {
    OrderRecord {
        order_id: s("ord_1"),
        order_no: s("YY20260101-ABCDEF"),
        customer_id: s("cus_1"),
        customer_name: s("客户一"),
        items: vec![item("platform", 1, 600), item("ai_employee", 2, 200)],
        total_amount_cents: total,
        received_amount_cents: received,
        status: s(status),
        created_at: 5,
        due_at: None,
        deployment_type: s("saas"),
        paid_at: None,
        license_id: None,
        notes: s(""),
        provider_id: Some(s("prv-1")),
    }
}

fn payment(amount: i64) -> RecordPaymentRequest {
    RecordPaymentRequest {
        amount_cents: amount,
        method: s(" bank "),
        reference: s(" r "),
        notes: s(""),
    }
}

fn rule(id: &str, kind: &str, rate: i64, status: &str, effective_at: i64) -> CommissionRule {
    CommissionRule {
        rule_id: s(id),
        product_type: s(kind),
        rate_basis_points: rate,
        status: s(status),
        effective_at,
    }
}

fn entry(id: &str, provider: &str, amount: i64, status: &str) -> CommissionEntry {
    CommissionEntry {
        entry_id: s(id),
        order_id: s("ord_1"),
        provider_id: s(provider),
        product_type: s("服务"),
        received_amount_cents: 1000,
        rate_basis_points: 500,
        commission_amount_cents: amount,
        status: s(status),
        created_at: 1,
    }
}

fn details(name: &str) -> CreateCustomerRequest {
    CreateCustomerRequest {
        name: s(name),
        contact_name: s(" 王 "),
        contact_phone: s(""),
        contact_email: s(""),
        notes: s(""),
    }
}

#[test]
fn customers_need_a_name() {
    let refused = new_customer(&details("  "), s("cus_1"), 7).err().unwrap();
    assert_eq!((refused.status, refused.message.as_str()), (400, "客户名称不能为空"));
    let made = new_customer(&details(" 客户 "), s("cus_1"), 7).ok().unwrap();
    assert_eq!(made.name, "客户");
    assert_eq!(made.contact_name, "王");
    assert_eq!(made.status, "active");
    assert_eq!(made.created_at, 7);
    let made = create_customer(&details("客户")).ok().unwrap();
    assert!(made.customer_id.starts_with("cus_"));
    assert_eq!(made.customer_id.len(), 36);
    assert!(made.created_at > 0);
}

#[test]
fn customers_are_changed() {
    let list = vec![customer("cus_1", "inactive")];
    let changed = update_customer(&details("新名"), "cus_1", &list).ok().unwrap();
    assert_eq!(changed.name, "新名");
    assert_eq!(changed.status, "inactive");
    assert_eq!(changed.created_at, 5);
    let refused = update_customer(&details("新名"), "cus_2", &list).err().unwrap();
    assert_eq!((refused.status, refused.message.as_str()), (404, "客户不存在"));
    assert_eq!(update_customer(&details(""), "cus_2", &list).err().unwrap().status, 400);
}

#[test]
fn customers_are_switched() {
    let list = vec![customer("cus_1", "inactive")];
    let switch = |status: &str| StatusRequest { status: s(status) };
    let changed = update_customer_status(&switch("active"), "cus_1", &list).ok().unwrap();
    assert_eq!(changed.status, "active");
    let refused = update_customer_status(&switch("gone"), "cus_1", &list).err().unwrap();
    assert_eq!((refused.status, refused.message.as_str()), (400, "客户状态无效"));
    let refused = update_customer_status(&switch("active"), "cus_9", &list).err().unwrap();
    assert_eq!((refused.status, refused.message.as_str()), (404, "客户不存在"));
}

#[test]
fn new_order_is_as_asked_for() {
    let made = new_order(
        &order_request(vec![item("platform", 2, 300), item("service", 1, 50)]),
        &vec![customer("cus_1", "active")],
        &vec![],
        s("ord_9"),
        s("YY20260101-000000"),
        7,
    )
    .ok()
    .unwrap();
    assert_eq!(made.order_id, "ord_9");
    assert_eq!(made.total_amount_cents, 650);
    assert_eq!(made.received_amount_cents, 0);
    assert_eq!(made.status, "pending_payment");
    assert_eq!(made.customer_id, "cus_1");
    assert_eq!(made.customer_name, "客户一");
    assert_eq!(made.notes, "备注");
    assert_eq!(made.due_at, Some(99));
    assert_eq!(made.items.len(), 2);
    assert!(made.license_id.is_none() && made.paid_at.is_none());
    assert_eq!(default_deployment_type(), "saas");
}

#[test]
fn created_order_has_a_number() {
    let made = create_order(
        &order_request(vec![item("platform", 1, 1)]),
        &vec![customer("cus_1", "active")],
        &vec![],
    )
    .ok()
    .unwrap();
    assert!(made.order_id.starts_with("ord_"));
    assert!(made.order_no.starts_with("YY20"));
    assert_eq!(made.order_no.len(), 17);
    let code = &made.order_no[11..];
    assert!(code.chars().all(|c| c.is_ascii_digit() || ('A'..='F').contains(&c)));
}

#[test]
fn order_flaws_are_told() {
    let refuse = |request: &CreateOrderRequest| {
        let refused = new_order(
            request,
            &vec![customer("cus_1", "active"), customer("cus_2", "inactive")],
            &vec![provider("prv-1", "active"), provider("prv-2", "inactive")],
            s("o"),
            s("n"),
            7,
        )
        .err()
        .unwrap();
        (refused.status, refused.message)
    };
    let good = || order_request(vec![item("platform", 1, 1)]);
    let mut request = good();
    request.deployment_type = s("cloud");
    assert_eq!(refuse(&request), (400, s("平台类型无效")));
    assert_eq!(refuse(&order_request(vec![])), (400, s("订单至少需要一个商品项")));
    for flawed in [item("platform", 0, 1), item("platform", 1, -1), item("gift", 1, 1)] {
        assert_eq!(
            refuse(&order_request(vec![flawed])),
            (400, s("订单商品项不完整或类型无效"))
        );
    }
    assert_eq!(
        refuse(&order_request(vec![item("platform", 1, 0)])),
        (400, s("订单金额必须大于 0"))
    );
    assert_eq!(
        refuse(&order_request(vec![item("platform", 2, i64::MAX)])),
        (400, s("订单金额必须大于 0"))
    );
    let mut request = good();
    request.customer_id = s("cus_9");
    assert_eq!(refuse(&request), (400, s("客户不存在")));
    request.customer_id = s("cus_2");
    assert_eq!(refuse(&request), (400, s("停用客户不能创建订单")));
    let mut request = good();
    request.provider_id = Some(s("prv-2"));
    assert_eq!(refuse(&request), (400, s("接单服务商不存在或已停用")));
    request.provider_id = Some(s("prv-9"));
    assert_eq!(refuse(&request), (400, s("接单服务商不存在或已停用")));
}

#[test]
fn orders_are_edited_until_paid() {
    let customers = vec![customer("cus_1", "active"), customer("cus_2", "inactive")];
    let orders = vec![order("pending_payment", 1000, 0)];
    let request = order_request(vec![item("service", 3, 100)]);
    let changed = update_order(&request, "ord_1", &customers, &orders).ok().unwrap();
    assert_eq!(changed.total_amount_cents, 300);
    assert_eq!(changed.order_no, "YY20260101-ABCDEF");
    assert_eq!(changed.provider_id, Some(s("prv-1")));
    assert_eq!(changed.notes, "备注");
    let refuse = |request: &CreateOrderRequest, id: &str, orders: &Vec<OrderRecord>| {
        let refused = update_order(request, id, &customers, orders).err().unwrap();
        (refused.status, refused.message)
    };
    assert_eq!(refuse(&request, "ord_9", &orders), (404, s("订单不存在")));
    assert_eq!(
        refuse(&request, "ord_1", &vec![order("paid", 1000, 1000)]),
        (400, s("只有未回款订单可以编辑"))
    );
    assert_eq!(
        refuse(&request, "ord_1", &vec![order("pending_payment", 1000, 1)]),
        (400, s("只有未回款订单可以编辑"))
    );
    assert_eq!(
        refuse(&order_request(vec![]), "ord_1", &orders),
        (400, s("订单信息不完整或平台类型无效"))
    );
    let mut request = order_request(vec![item("service", 3, 100)]);
    request.customer_id = s("cus_2");
    assert_eq!(refuse(&request, "ord_1", &orders), (400, s("停用客户不能关联订单")));
}

#[test]
fn partial_payment_splits_commissions() {
    let rules = vec![
        rule("a", "低代码平台", 1000, "active", 1),
        rule("b", "AI员工", 250, "active", 1),
    ];
    let paid = take_payment(
        "ord_1",
        &payment(500),
        &vec![order("pending_payment", 1000, 100)],
        &rules,
        s("txn_1"),
        &vec![s("cme-1"), s("cme-2")],
        9,
    )
    .ok()
    .unwrap();
    assert_eq!(paid.order.status, "pending_payment");
    assert_eq!(paid.order.received_amount_cents, 600);
    assert_eq!(paid.order.paid_at, None);
    assert_eq!(paid.transaction.transaction_id, "txn_1");
    assert_eq!(paid.transaction.method, "bank");
    assert_eq!(paid.transaction.reference, "r");
    assert_eq!(paid.transaction.amount_cents, 500);
    assert_eq!(paid.transaction.occurred_at, 9);
    assert_eq!(paid.commissions.len(), 2);
    assert_eq!(paid.commissions[0].received_amount_cents, 300);
    assert_eq!(paid.commissions[0].commission_amount_cents, 30);
    assert_eq!(paid.commissions[1].received_amount_cents, 200);
    assert_eq!(paid.commissions[1].commission_amount_cents, 5);
    assert_eq!(paid.commissions[1].product_type, "AI员工");
    assert_eq!(paid.commissions[1].status, "pending_settlement");
    let received: i64 = paid.commissions.iter().map(|c| c.received_amount_cents).sum();
    assert!(received <= 500);
}

#[test]
fn last_payment_pays_the_order() {
    let orders = vec![order("pending_payment", 1000, 100)];
    let paid = record_payment("ord_1", &payment(900), &orders, &vec![])
        .unwrap()
        .ok()
        .unwrap();
    assert_eq!(paid.order.status, "paid");
    assert_eq!(paid.order.received_amount_cents, 1000);
    assert_eq!(paid.order.paid_at, Some(paid.transaction.occurred_at));
    assert!(paid.transaction.transaction_id.starts_with("txn_"));
    assert_eq!(paid.commissions.len(), 0);
    let again = record_payment("ord_1", &payment(1), &vec![paid.order], &vec![])
        .unwrap()
        .err()
        .unwrap();
    assert_eq!((again.status, again.message.as_str()), (400, "本次回款超过订单待收金额"));
}

#[test]
fn payment_flaws_are_told() {
    let refuse = |id: &str, request: &RecordPaymentRequest, status: &str| {
        let refused = record_payment(id, request, &vec![order(status, 1000, 0)], &vec![])
            .unwrap()
            .err()
            .unwrap();
        (refused.status, refused.message)
    };
    assert_eq!(
        refuse("ord_1", &payment(0), "pending_payment"),
        (400, s("回款金额和收款方式不能为空"))
    );
    let mut unnamed = payment(5);
    unnamed.method = s(" ");
    assert_eq!(
        refuse("ord_1", &unnamed, "pending_payment"),
        (400, s("回款金额和收款方式不能为空"))
    );
    assert_eq!(
        refuse("ord_9", &payment(5), "pending_payment"),
        (404, s("订单不存在"))
    );
    for status in ["cancelled", "fulfilled"] {
        assert_eq!(
            refuse("ord_1", &payment(5), status),
            (400, s("当前订单状态不能登记回款"))
        );
    }
    assert_eq!(
        refuse("ord_1", &payment(1001), "pending_payment"),
        (400, s("本次回款超过订单待收金额"))
    );
}

#[test]
fn payments_too_large_to_count_are_seen() {
    let mut huge = order("pending_payment", i64::MAX, 0);
    huge.items = vec![item("platform", 1, i64::MAX)];
    let rules = vec![rule("a", "低代码平台", 1000, "active", 1)];
    let orders = vec![huge];
    assert!(!can_count_payment("ord_1", &payment(5), &orders, &rules, 9));
    assert!(record_payment("ord_1", &payment(5), &orders, &rules).is_none());
    let ids = vec![s("cme-1"), s("cme-2")];
    let at = |orders: &Vec<OrderRecord>, second: i64| {
        record_payment_at("ord_1", &payment(5), orders, &rules, s("txn_1"), &ids, second)
    };
    assert!(at(&orders, 1).is_none());
    assert!(at(&orders, 0).unwrap().is_ok());
    let paid = at(&vec![order("pending_payment", 1000, 0)], 9).unwrap().ok().unwrap();
    assert_eq!(paid.transaction.occurred_at, 9);
    assert!(can_count_payment("ord_1", &payment(5), &orders, &vec![], 9));
}

#[test]
fn commissions_on_negative_amounts_round_towards_zero() {
    let mut mixed = order("pending_payment", 1000, 0);
    mixed.items = vec![item("platform", 1, -333), item("ai_employee", 1, 1333)];
    let rules = vec![
        rule("a", "低代码平台", 1000, "active", 1),
        rule("b", "AI员工", -250, "active", 1),
    ];
    let orders = vec![mixed];
    assert!(can_count_payment("ord_1", &payment(100), &orders, &rules, 9));
    let paid = record_payment("ord_1", &payment(100), &orders, &rules).unwrap().ok().unwrap();
    assert_eq!(paid.commissions[0].received_amount_cents, -33);
    assert_eq!(paid.commissions[0].commission_amount_cents, -3);
    assert_eq!(paid.commissions[1].received_amount_cents, 133);
    assert_eq!(paid.commissions[1].commission_amount_cents, -3);
}

#[test]
fn orders_are_cancelled_before_any_payment() {
    let orders = vec![order("pending_payment", 1000, 0)];
    let cancelled = cancel_order("ord_1", &orders, &vec![]).ok().unwrap();
    assert_eq!(cancelled.status, "cancelled");
    let transaction = TransactionRecord {
        transaction_id: s("txn_1"),
        order_id: s("ord_1"),
        order_no: s(""),
        customer_id: s("cus_1"),
        customer_name: s(""),
        amount_cents: 5,
        method: s("bank"),
        reference: s(""),
        notes: s(""),
        occurred_at: 1,
    };
    for refused in [
        cancel_order("ord_1", &orders, &vec![transaction]).err().unwrap(),
        cancel_order("ord_9", &orders, &vec![]).err().unwrap(),
        cancel_order("ord_1", &vec![order("paid", 1000, 1000)], &vec![]).err().unwrap(),
    ] {
        assert_eq!(
            (refused.status, refused.message.as_str()),
            (400, "只有未回款订单可以取消")
        );
    }
}

#[test]
fn providers_need_a_name() {
    let request = |name: &str| SaveProviderRequest {
        name: s(name),
        contact_name: s(" 李 "),
        contact_phone: s(""),
    };
    let refused = new_provider(&request(" "), s("prv-1"), 3).err().unwrap();
    assert_eq!((refused.status, refused.message.as_str()), (400, "服务商名称不能为空"));
    let made = new_provider(&request(" 服务商 "), s("prv-1"), 3).ok().unwrap();
    assert_eq!(made.name, "服务商");
    assert_eq!(made.contact_name, "李");
    assert_eq!(made.status, "active");
    assert!(create_provider(&request("x")).ok().unwrap().provider_id.starts_with("prv-"));
}

#[test]
fn commission_rules_have_bounds() {
    let request = |kind: &str, rate: i64, at: Option<i64>| SaveCommissionRuleRequest {
        product_type: s(kind),
        rate_basis_points: rate,
        effective_at: at,
    };
    for flawed in [request(" ", 5, None), request("服务", -1, None), request("服务", 10_001, None)] {
        let refused = new_commission_rule(&flawed, s("crl-1"), 3).err().unwrap();
        assert_eq!(
            (refused.status, refused.message.as_str()),
            (400, "产品类型或返点比例无效")
        );
    }
    let made = new_commission_rule(&request(" 服务 ", 10_000, None), s("crl-1"), 3).ok().unwrap();
    assert_eq!(made.product_type, "服务");
    assert_eq!(made.effective_at, 3);
    assert_eq!(made.status, "active");
    let made = save_commission_rule(&request("服务", 0, Some(8))).ok().unwrap();
    assert_eq!(made.effective_at, 8);
    assert!(made.rule_id.starts_with("crl-"));
}

#[test]
fn commission_rule_is_the_latest_in_force() {
    let rules = vec![
        rule("a", "服务", 100, "active", 5),
        rule("b", "服务", 200, "active", 9),
        rule("c", "服务", 300, "active", 20),
        rule("d", "服务", 400, "inactive", 10),
        rule("e", "AI员工", 500, "active", 10),
    ];
    assert_eq!(commission_rate(&rules, "服务", 10), Some(200));
    assert_eq!(commission_rate(&rules, "服务", 20), Some(300));
    assert_eq!(commission_rate(&rules, "服务", 4), None);
    assert_eq!(commission_rate(&rules, "通信", 10), None);
}

#[test]
fn product_types_follow_the_kind() {
    assert_eq!(product_type("platform"), "低代码平台");
    assert_eq!(product_type("ai_employee"), "AI员工");
    assert_eq!(product_type("module"), "通信");
    assert_eq!(product_type("service"), "服务");
}

#[test]
fn commissions_are_settled_once() {
    let request = CreateSettlementBatchRequest {
        provider_id: s("prv-1"),
        notes: s(" 六月 "),
    };
    let ledger = || {
        vec![
            entry("a", "prv-1", 30, "pending_settlement"),
            entry("b", "prv-2", 40, "pending_settlement"),
            entry("c", "prv-1", 50, "reversed"),
            entry("d", "prv-1", 60, "pending_settlement"),
        ]
    };
    let mut entries = ledger();
    let batch = settle_commissions(&request, &mut entries, s("stl-1"), 8).ok().unwrap();
    let batches: Vec<Option<String>> =
        ledger().iter().map(|e| settlement_batch_id(e, &batch)).collect();
    assert_eq!(batches, vec![Some(s("stl-1")), None, None, Some(s("stl-1"))]);
    assert_eq!(batch.total_amount_cents, 90);
    assert_eq!(batch.entry_count, 2);
    assert_eq!(batch.notes, "六月");
    assert_eq!(batch.status, "settled");
    assert_eq!(batch.settled_at, 8);
    let statuses: Vec<&str> = entries.iter().map(|e| e.status.as_str()).collect();
    assert_eq!(statuses, vec!["settled", "pending_settlement", "reversed", "settled"]);
    let refused = create_settlement_batch(&request, &mut entries).err().unwrap();
    assert_eq!(
        (refused.status, refused.message.as_str()),
        (400, "该服务商没有待结算返利")
    );
}

#[test]
fn reversed_commission_cancels_out() {
    let mut entries = vec![entry("a", "prv-1", 30, "pending_settlement")];
    let back = take_back_commission("a", &mut entries, s("cme-2"), 8).ok().unwrap();
    assert_eq!(back.entry_id, "cme-2");
    assert_eq!(back.commission_amount_cents, -30);
    assert_eq!(back.received_amount_cents, -1000);
    assert_eq!(back.product_type, "服务-退款冲正");
    assert_eq!(back.status, "reversed");
    assert_eq!(entries.len(), 2);
    assert_eq!(entries[0].status, "reversed");
    let refused = reverse_commission("a", &mut entries).err().unwrap();
    assert_eq!(
        (refused.status, refused.message.as_str()),
        (400, "仅待结算返利可冲正")
    );
    let refused = reverse_commission("z", &mut entries).err().unwrap();
    assert_eq!(
        (refused.status, refused.message.as_str()),
        (404, "返利记录不存在")
    );
    assert_eq!(entries.len(), 2);
}

fn balance(status: &str, total: i64, received: i64) -> OrderBalance {
    OrderBalance {
        status: s(status),
        total_amount_cents: total,
        received_amount_cents: received,
    }
}

fn receipt(amount: i64, at: i64) -> Receipt {
    Receipt {
        amount_cents: amount,
        occurred_at: at,
    }
}

#[test]
fn finances_are_summed_up() {
    let receipts = vec![receipt(100, 5), receipt(50, 10), receipt(7, 11)];
    let balances = vec![
        balance("pending_payment", 1000, 107),
        balance("paid", 50, 50),
        balance("pending_payment", 10, 20),
        balance("cancelled", 400, 0),
        balance("fulfilled", 30, 0),
    ];
    let customers = vec![s("active"), s("inactive"), s("active")];
    let summary = summarize(&receipts, &balances, &customers, 10).ok().unwrap();
    assert_eq!(summary.total_received_cents, 157);
    assert_eq!(summary.month_received_cents, 57);
    assert_eq!(summary.outstanding_cents, 893);
    assert_eq!(summary.paid_order_count, 2);
    assert_eq!(summary.pending_order_count, 2);
    assert_eq!(summary.active_customer_count, 2);
}

#[test]
fn month_starts_at_its_first_second() {
    let receipts = vec![receipt(1, 1_769_903_999), receipt(2, 1_769_904_000)];
    let summary = summarize_at(&receipts, &vec![], &vec![], 1_771_000_000).ok().unwrap();
    assert_eq!(summary.total_received_cents, 3);
    assert_eq!(summary.month_received_cents, 2);
    let summary = finance_summary(&receipts, &vec![], &vec![]).ok().unwrap();
    assert!(summary.month_received_cents <= summary.total_received_cents);
}

#[test]
fn sums_beyond_all_bounds_are_refused() {
    let receipts = vec![receipt(i64::MAX, 1), receipt(1, 1)];
    let refused = summarize(&receipts, &vec![], &vec![], 0).err().unwrap();
    assert_eq!((refused.status, refused.message.as_str()), (500, "财务汇总读取失败"));
}
