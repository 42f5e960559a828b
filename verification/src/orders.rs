//! Orders: what was sold to whom, and the payments for it.

use vstd::prelude::*;

use crate::accounts::ProviderOwned;
use crate::clock;
use crate::commissions;
use crate::commissions::{CommissionEntry, CommissionRule, ProviderRecord};
use crate::copying::{duplicate_all, duplicate_opt, Duplicate};
use crate::customers;
use crate::customers::CustomerRecord;
use crate::ids;
use crate::lookup;
use crate::lookup::Keyed;
use crate::rejection;
use crate::rejection::{refuse, Rejection};
use crate::text;

verus! {

/// One item of an order.
pub struct OrderLineItem {
    pub kind: String,
    pub reference_id: Option<String>,
    pub title: String,
    pub quantity: u32,
    pub unit_price_cents: i64,
    pub entitlement_days: Option<u32>,
}

/// What a `OrderLineItem` holds.
#[verifier::ext_equal]
pub struct OrderLineItemView {
    pub kind: Seq<char>,
    pub reference_id: Option<Seq<char>>,
    pub title: Seq<char>,
    pub quantity: u32,
    pub unit_price_cents: i64,
    pub entitlement_days: Option<u32>,
}

impl View for OrderLineItem {
    type V = OrderLineItemView;

    open spec fn view(&self) -> OrderLineItemView {
        OrderLineItemView {
            kind: self.kind@,
            reference_id: text::opt_view(self.reference_id),
            title: self.title@,
            quantity: self.quantity,
            unit_price_cents: self.unit_price_cents,
            entitlement_days: self.entitlement_days,
        }
    }
}

impl Duplicate for OrderLineItem {
    fn duplicate(&self) -> (r: Self) {
        OrderLineItem {
            kind: self.kind.clone(),
            reference_id: duplicate_opt(&self.reference_id),
            title: self.title.clone(),
            quantity: self.quantity,
            unit_price_cents: self.unit_price_cents,
            entitlement_days: self.entitlement_days,
        }
    }
}

/// A request to make or change an order.
pub struct CreateOrderRequest {
    pub customer_id: String,
    pub items: Vec<OrderLineItem>,
    pub due_at: Option<i64>,
    pub deployment_type: String,
    pub notes: String,
    pub provider_id: Option<String>,
}

/// What a `CreateOrderRequest` holds.
#[verifier::ext_equal]
pub struct CreateOrderRequestView {
    pub customer_id: Seq<char>,
    pub items: Seq<OrderLineItemView>,
    pub due_at: Option<i64>,
    pub deployment_type: Seq<char>,
    pub notes: Seq<char>,
    pub provider_id: Option<Seq<char>>,
}

impl View for CreateOrderRequest {
    type V = CreateOrderRequestView;

    open spec fn view(&self) -> CreateOrderRequestView {
        CreateOrderRequestView {
            customer_id: self.customer_id@,
            items: text::views(self.items@),
            due_at: self.due_at,
            deployment_type: self.deployment_type@,
            notes: self.notes@,
            provider_id: text::opt_view(self.provider_id),
        }
    }
}

/// An order.
pub struct OrderRecord {
    pub order_id: String,
    pub order_no: String,
    pub customer_id: String,
    pub customer_name: String,
    pub items: Vec<OrderLineItem>,
    pub total_amount_cents: i64,
    pub received_amount_cents: i64,
    pub status: String,
    pub created_at: i64,
    pub due_at: Option<i64>,
    pub deployment_type: String,
    pub paid_at: Option<i64>,
    pub license_id: Option<String>,
    pub notes: String,
    pub provider_id: Option<String>,
}

/// What a `OrderRecord` holds.
#[verifier::ext_equal]
pub struct OrderRecordView {
    pub order_id: Seq<char>,
    pub order_no: Seq<char>,
    pub customer_id: Seq<char>,
    pub customer_name: Seq<char>,
    pub items: Seq<OrderLineItemView>,
    pub total_amount_cents: i64,
    pub received_amount_cents: i64,
    pub status: Seq<char>,
    pub created_at: i64,
    pub due_at: Option<i64>,
    pub deployment_type: Seq<char>,
    pub paid_at: Option<i64>,
    pub license_id: Option<Seq<char>>,
    pub notes: Seq<char>,
    pub provider_id: Option<Seq<char>>,
}

impl View for OrderRecord {
    type V = OrderRecordView;

    open spec fn view(&self) -> OrderRecordView {
        OrderRecordView {
            order_id: self.order_id@,
            order_no: self.order_no@,
            customer_id: self.customer_id@,
            customer_name: self.customer_name@,
            items: text::views(self.items@),
            total_amount_cents: self.total_amount_cents,
            received_amount_cents: self.received_amount_cents,
            status: self.status@,
            created_at: self.created_at,
            due_at: self.due_at,
            deployment_type: self.deployment_type@,
            paid_at: self.paid_at,
            license_id: text::opt_view(self.license_id),
            notes: self.notes@,
            provider_id: text::opt_view(self.provider_id),
        }
    }
}

impl Duplicate for OrderRecord {
    fn duplicate(&self) -> (r: Self) {
        OrderRecord {
            order_id: self.order_id.clone(),
            order_no: self.order_no.clone(),
            customer_id: self.customer_id.clone(),
            customer_name: self.customer_name.clone(),
            items: duplicate_all(&self.items),
            total_amount_cents: self.total_amount_cents,
            received_amount_cents: self.received_amount_cents,
            status: self.status.clone(),
            created_at: self.created_at,
            due_at: self.due_at,
            deployment_type: self.deployment_type.clone(),
            paid_at: self.paid_at,
            license_id: duplicate_opt(&self.license_id),
            notes: self.notes.clone(),
            provider_id: duplicate_opt(&self.provider_id),
        }
    }
}

/// A request to record a payment.
pub struct RecordPaymentRequest {
    pub amount_cents: i64,
    pub method: String,
    pub reference: String,
    pub notes: String,
}

/// What a `RecordPaymentRequest` holds.
#[verifier::ext_equal]
pub struct RecordPaymentRequestView {
    pub amount_cents: i64,
    pub method: Seq<char>,
    pub reference: Seq<char>,
    pub notes: Seq<char>,
}

impl View for RecordPaymentRequest {
    type V = RecordPaymentRequestView;

    open spec fn view(&self) -> RecordPaymentRequestView {
        RecordPaymentRequestView {
            amount_cents: self.amount_cents,
            method: self.method@,
            reference: self.reference@,
            notes: self.notes@,
        }
    }
}

/// A payment that was received.
pub struct TransactionRecord {
    pub transaction_id: String,
    pub order_id: String,
    pub order_no: String,
    pub customer_id: String,
    pub customer_name: String,
    pub amount_cents: i64,
    pub method: String,
    pub reference: String,
    pub notes: String,
    pub occurred_at: i64,
}

/// What a `TransactionRecord` holds.
#[verifier::ext_equal]
pub struct TransactionRecordView {
    pub transaction_id: Seq<char>,
    pub order_id: Seq<char>,
    pub order_no: Seq<char>,
    pub customer_id: Seq<char>,
    pub customer_name: Seq<char>,
    pub amount_cents: i64,
    pub method: Seq<char>,
    pub reference: Seq<char>,
    pub notes: Seq<char>,
    pub occurred_at: i64,
}

impl View for TransactionRecord {
    type V = TransactionRecordView;

    open spec fn view(&self) -> TransactionRecordView {
        TransactionRecordView {
            transaction_id: self.transaction_id@,
            order_id: self.order_id@,
            order_no: self.order_no@,
            customer_id: self.customer_id@,
            customer_name: self.customer_name@,
            amount_cents: self.amount_cents,
            method: self.method@,
            reference: self.reference@,
            notes: self.notes@,
            occurred_at: self.occurred_at,
        }
    }
}

/// What recording a payment leads to: the order as it is then, the
/// transaction, and the commissions on it.
pub struct Payment {
    pub order: OrderRecord,
    pub transaction: TransactionRecord,
    pub commissions: Vec<CommissionEntry>,
}

/// What a `Payment` holds.
#[verifier::ext_equal]
pub struct PaymentView {
    pub order: OrderRecordView,
    pub transaction: TransactionRecordView,
    pub commissions: Seq<commissions::CommissionEntryView>,
}

impl View for Payment {
    type V = PaymentView;

    open spec fn view(&self) -> PaymentView {
        PaymentView {
            order: self.order@,
            transaction: self.transaction@,
            commissions: text::views(self.commissions@),
        }
    }
}

impl Keyed for OrderRecord {
    open spec fn key_of(record: OrderRecordView) -> Seq<char> {
        record.order_id
    }

    fn has_key(&self, key: &str) -> (r: bool) {
        text::same(self.order_id.as_str(), key)
    }
}

impl ProviderOwned for OrderRecord {
    open spec fn owner(record: OrderRecordView) -> Option<Seq<char>> {
        record.provider_id
    }

    fn belongs_to(&self, provider: &str) -> (r: bool) {
        match &self.provider_id {
            Some(id) => text::same(id.as_str(), provider),
            None => false,
        }
    }
}

/// The order with an identifier.
pub open spec fn order_with(orders: Seq<OrderRecordView>, id: Seq<char>) -> Option<
    OrderRecordView,
> {
    lookup::found::<OrderRecord>(orders, id)
}

/// The deployment type of an order that names none.
pub fn default_deployment_type() -> (r: String)
    ensures
        r@ == "saas"@,
{
    "saas".to_string()
}

/// Whether a text is a deployment type.
pub open spec fn is_deployment_type(s: Seq<char>) -> bool {
    s == "saas"@ || s == "local"@
}

/// Whether a text is a deployment type.
fn valid_deployment_type(s: &str) -> (r: bool)
    ensures
        r == is_deployment_type(s@),
{
    text::same(s, "saas") || text::same(s, "local")
}

/// Whether a text is a kind of item.
pub open spec fn is_item_kind(s: Seq<char>) -> bool {
    s == "platform"@ || s == "module"@ || s == "ai_employee"@ || s == "service"@
}

/// Whether an item is complete: titled, of a known kind, at least one, and not
/// at a negative price.
pub open spec fn is_sound(item: OrderLineItemView) -> bool {
    !text::blank(item.title) && item.quantity != 0 && item.unit_price_cents >= 0 && is_item_kind(
        item.kind,
    )
}

/// Whether all items are complete.
pub open spec fn all_sound(items: Seq<OrderLineItemView>) -> bool {
    forall|i: int| 0 <= i < items.len() ==> is_sound(#[trigger] items[i])
}

/// Whether all items are complete.
fn check_items(items: &Vec<OrderLineItem>) -> (r: bool)
    ensures
        r == all_sound(text::views(items@)),
{
    let mut i: usize = 0;
    while i < items.len()
        invariant
            i <= items@.len(),
            forall|k: int| 0 <= k < i ==> is_sound((#[trigger] items@[k])@),
        decreases items@.len() - i,
    {
        let item = &items[i];
        let kind = item.kind.as_str();
        let known = text::same(kind, "platform") || text::same(kind, "module") || text::same(
            kind,
            "ai_employee",
        ) || text::same(kind, "service");
        if text::is_blank(item.title.as_str()) || item.quantity == 0 || item.unit_price_cents < 0
            || !known {
            assert(!is_sound(text::views(items@)[i as int]));
            return false;
        }
        i = i + 1;
    }
    assert forall|k: int| 0 <= k < items@.len() implies is_sound(
        #[trigger] text::views(items@)[k],
    ) by {
        assert(is_sound(items@[k]@));
    }
    true
}

/// The price of an item.
pub open spec fn amount_of(item: OrderLineItemView) -> int {
    item.unit_price_cents * item.quantity
}

/// The price of some items together.
pub open spec fn amount_due(items: Seq<OrderLineItemView>) -> int
    decreases items.len(),
{
    if items.len() == 0 {
        0
    } else {
        amount_due(items.drop_last()) + amount_of(items.last())
    }
}

proof fn lemma_amount_of(item: OrderLineItemView)
    requires
        item.unit_price_cents >= 0,
    ensures
        amount_of(item) >= 0,
{
    assert(amount_of(item) >= 0) by (nonlinear_arith)
        requires
            item.unit_price_cents >= 0,
            amount_of(item) == item.unit_price_cents * item.quantity,
            item.quantity >= 0,
    ;
}

/// The price of some of the first items is at most the price of all.
proof fn lemma_amount_grows(items: Seq<OrderLineItemView>, k: int)
    requires
        forall|i: int| 0 <= i < items.len() ==> (#[trigger] items[i]).unit_price_cents >= 0,
        0 <= k <= items.len(),
    ensures
        0 <= amount_due(items.take(k)) <= amount_due(items),
    decreases items.len(),
{
    if items.len() == 0 {
        assert(items.take(k) =~= items);
    } else {
        let init = items.drop_last();
        assert forall|i: int| 0 <= i < init.len() implies (#[trigger] init[i]).unit_price_cents
            >= 0 by {
            assert(items[i].unit_price_cents >= 0);
        }
        lemma_amount_of(items[items.len() - 1]);
        if k == items.len() {
            assert(items.take(k) =~= items);
            lemma_amount_grows(init, init.len() as int);
            assert(init.take(init.len() as int) =~= init);
        } else {
            lemma_amount_grows(init, k);
            assert(init.take(k) =~= items.take(k));
        }
    }
}

/// The price of complete items together, where it is a positive 64-bit number.
fn total_amount(items: &Vec<OrderLineItem>) -> (r: Option<i64>)
    requires
        all_sound(text::views(items@)),
    ensures
        r is Some <==> 0 < amount_due(text::views(items@)) <= i64::MAX,
        r matches Some(total) ==> total == amount_due(text::views(items@)),
{
    let ghost all = text::views(items@);
    let mut total: i64 = 0;
    let mut i: usize = 0;
    assert(all.take(0) =~= Seq::<OrderLineItemView>::empty());
    while i < items.len()
        invariant
            i <= items@.len(),
            all == text::views(items@),
            all_sound(all),
            total == amount_due(all.take(i as int)),
            total >= 0,
        decreases items@.len() - i,
    {
        proof {
            assert(is_sound(all[i as int]));
            assert forall|k: int| 0 <= k < all.len() implies (#[trigger] all[k]).unit_price_cents
                >= 0 by {
                assert(is_sound(all[k]));
            }
            lemma_amount_of(all[i as int]);
            lemma_amount_grows(all, i + 1);
            assert(all.take(i + 1).drop_last() =~= all.take(i as int));
            assert(all.take(i + 1).last() == items@[i as int]@);
        }
        let price = match items[i].unit_price_cents.checked_mul(items[i].quantity as i64) {
            Some(price) => price,
            None => {
                return None;
            },
        };
        total = match total.checked_add(price) {
            Some(sum) => sum,
            None => {
                return None;
            },
        };
        i = i + 1;
    }
    assert(all.take(all.len() as int) =~= all);
    if total > 0 {
        Some(total)
    } else {
        None
    }
}

/// What is wrong with the items and the amount of an order, if anything.
pub open spec fn items_flaw(items: Seq<OrderLineItemView>) -> Option<rejection::RejectionView> {
    if !all_sound(items) {
        Some(rejection::refusal(rejection::BAD_REQUEST, "订单商品项不完整或类型无效"@))
    } else if !(0 < amount_due(items) <= i64::MAX) {
        Some(rejection::refusal(rejection::BAD_REQUEST, "订单金额必须大于 0"@))
    } else {
        None
    }
}

/// The price of the items of an order, or what is wrong with them.
fn priced(items: &Vec<OrderLineItem>) -> (r: Result<i64, Rejection>)
    ensures
        match r {
            Ok(total) => items_flaw(text::views(items@)) is None && total == amount_due(
                text::views(items@),
            ),
            Err(e) => items_flaw(text::views(items@)) == Some(e@),
        },
{
    if !check_items(items) {
        return Err(refuse(rejection::BAD_REQUEST, "订单商品项不完整或类型无效"));
    }
    match total_amount(items) {
        Some(total) => Ok(total),
        None => Err(refuse(rejection::BAD_REQUEST, "订单金额必须大于 0")),
    }
}

/// What is wrong with the provider of an order, if anything.
pub open spec fn provider_flaw(
    provider_id: Option<Seq<char>>,
    providers: Seq<commissions::ProviderRecordView>,
) -> Option<rejection::RejectionView> {
    match provider_id {
        None => None,
        Some(id) => match lookup::found::<ProviderRecord>(providers, id) {
            Some(provider) => if provider.status == "active"@ {
                None
            } else {
                Some(rejection::refusal(rejection::BAD_REQUEST, "接单服务商不存在或已停用"@))
            },
            None => Some(rejection::refusal(rejection::BAD_REQUEST, "接单服务商不存在或已停用"@)),
        },
    }
}

/// Looks for what is wrong with the provider of an order.
fn check_provider(provider_id: &Option<String>, providers: &Vec<ProviderRecord>) -> (r: Option<
    Rejection,
>)
    ensures
        text::opt_view(r) == provider_flaw(text::opt_view(*provider_id), text::views(providers@)),
{
    match provider_id {
        None => None,
        Some(id) => match lookup::find(providers, id.as_str()) {
            Some(provider) => if text::same(provider.status.as_str(), "active") {
                None
            } else {
                Some(refuse(rejection::BAD_REQUEST, "接单服务商不存在或已停用"))
            },
            None => Some(refuse(rejection::BAD_REQUEST, "接单服务商不存在或已停用")),
        },
    }
}

/// What a request for a new order comes to. An order that is made waits for
/// payment, and nothing was received for it.
pub open spec fn new_order_outcome(
    request: CreateOrderRequestView,
    customers: Seq<customers::CustomerRecordView>,
    providers: Seq<commissions::ProviderRecordView>,
    order_id: Seq<char>,
    order_no: Seq<char>,
    now: i64,
) -> Result<OrderRecordView, rejection::RejectionView> {
    if !is_deployment_type(request.deployment_type) {
        Err(rejection::refusal(rejection::BAD_REQUEST, "平台类型无效"@))
    } else if request.items.len() == 0 {
        Err(rejection::refusal(rejection::BAD_REQUEST, "订单至少需要一个商品项"@))
    } else {
        match items_flaw(request.items) {
            Some(flaw) => Err(flaw),
            None => match customers::customer_with(
                customers,
                text::trimmed(request.customer_id),
            ) {
                None => Err(rejection::refusal(rejection::BAD_REQUEST, "客户不存在"@)),
                Some(customer) => if customer.status != "active"@ {
                    Err(rejection::refusal(rejection::BAD_REQUEST, "停用客户不能创建订单"@))
                } else {
                    match provider_flaw(request.provider_id, providers) {
                        Some(flaw) => Err(flaw),
                        None => Ok(
                            OrderRecordView {
                                order_id,
                                order_no,
                                customer_id: customer.customer_id,
                                customer_name: customer.name,
                                items: request.items,
                                total_amount_cents: amount_due(request.items) as i64,
                                received_amount_cents: 0,
                                status: "pending_payment"@,
                                created_at: now,
                                due_at: request.due_at,
                                deployment_type: request.deployment_type,
                                paid_at: None,
                                license_id: None,
                                notes: text::trimmed(request.notes),
                                provider_id: request.provider_id,
                            },
                        ),
                    }
                },
            },
        }
    }
}

/// The order that a request asks for, with a given identifier and number, made
/// at a given time.
pub fn new_order(
    request: &CreateOrderRequest,
    customers: &Vec<CustomerRecord>,
    providers: &Vec<ProviderRecord>,
    order_id: String,
    order_no: String,
    now: i64,
) -> (r: Result<OrderRecord, Rejection>)
    ensures
        rejection::outcome(r) == new_order_outcome(
            request@,
            text::views(customers@),
            text::views(providers@),
            order_id@,
            order_no@,
            now,
        ),
{
    if !valid_deployment_type(request.deployment_type.as_str()) {
        return Err(refuse(rejection::BAD_REQUEST, "平台类型无效"));
    }
    assert(request@.items.len() == request.items@.len());
    if request.items.len() == 0 {
        return Err(refuse(rejection::BAD_REQUEST, "订单至少需要一个商品项"));
    }
    let total = match priced(&request.items) {
        Ok(total) => total,
        Err(flaw) => {
            return Err(flaw);
        },
    };
    let customer_id = text::trim_owned(request.customer_id.as_str());
    let customer = match lookup::find(customers, customer_id.as_str()) {
        Some(customer) => customer,
        None => {
            return Err(refuse(rejection::BAD_REQUEST, "客户不存在"));
        },
    };
    if !text::same(customer.status.as_str(), "active") {
        return Err(refuse(rejection::BAD_REQUEST, "停用客户不能创建订单"));
    }
    match check_provider(&request.provider_id, providers) {
        Some(flaw) => {
            return Err(flaw);
        },
        None => {},
    }
    Ok(
        OrderRecord {
            order_id,
            order_no,
            customer_id: customer.customer_id.clone(),
            customer_name: customer.name.clone(),
            items: duplicate_all(&request.items),
            total_amount_cents: total,
            received_amount_cents: 0,
            status: "pending_payment".to_string(),
            created_at: now,
            due_at: request.due_at,
            deployment_type: request.deployment_type.clone(),
            paid_at: None,
            license_id: None,
            notes: text::trim_owned(request.notes.as_str()),
            provider_id: duplicate_opt(&request.provider_id),
        },
    )
}

/// The order that a request asks for, with a new identifier and number, made
/// now.
pub fn create_order(
    request: &CreateOrderRequest,
    customers: &Vec<CustomerRecord>,
    providers: &Vec<ProviderRecord>,
) -> (r: Result<OrderRecord, Rejection>)
    ensures
        exists|id: Seq<char>, number: Seq<char>, now: i64|
            ids::is_record_id_at(id, "ord_"@, now) && ids::is_order_number(number, now as int)
                && rejection::outcome(r) == #[trigger] new_order_outcome(
                request@,
                text::views(customers@),
                text::views(providers@),
                id,
                number,
                now,
            ),
{
    let now = clock::now();
    let id = ids::generated_record_id("ord_");
    let number = ids::new_order_number(now);
    assert(ids::is_record_id_at(id@, "ord_"@, now));
    new_order(request, customers, providers, id, number, now)
}

/// What a request to change an order comes to. Only an order that waits for
/// payment, and for which nothing was received, can be changed.
pub open spec fn changed_order_outcome(
    request: CreateOrderRequestView,
    order_id: Seq<char>,
    customers: Seq<customers::CustomerRecordView>,
    orders: Seq<OrderRecordView>,
) -> Result<OrderRecordView, rejection::RejectionView> {
    if !is_deployment_type(request.deployment_type) || request.items.len() == 0 {
        Err(rejection::refusal(rejection::BAD_REQUEST, "订单信息不完整或平台类型无效"@))
    } else {
        match items_flaw(request.items) {
            Some(flaw) => Err(flaw),
            None => match customers::customer_with(
                customers,
                text::trimmed(request.customer_id),
            ) {
                None => Err(rejection::refusal(rejection::BAD_REQUEST, "客户不存在"@)),
                Some(customer) => if customer.status != "active"@ {
                    Err(rejection::refusal(rejection::BAD_REQUEST, "停用客户不能关联订单"@))
                } else {
                    match order_with(orders, order_id) {
                        None => Err(rejection::refusal(rejection::NOT_FOUND, "订单不存在"@)),
                        Some(order) => if order.status != "pending_payment"@
                            || order.received_amount_cents > 0 {
                            Err(
                                rejection::refusal(
                                    rejection::BAD_REQUEST,
                                    "只有未回款订单可以编辑"@,
                                ),
                            )
                        } else {
                            Ok(
                                OrderRecordView {
                                    customer_id: customer.customer_id,
                                    customer_name: customer.name,
                                    items: request.items,
                                    total_amount_cents: amount_due(request.items) as i64,
                                    due_at: request.due_at,
                                    deployment_type: request.deployment_type,
                                    notes: text::trimmed(request.notes),
                                    ..order
                                },
                            )
                        },
                    }
                },
            },
        }
    }
}

/// An order with what a request says of it.
pub fn update_order(
    request: &CreateOrderRequest,
    order_id: &str,
    customers: &Vec<CustomerRecord>,
    orders: &Vec<OrderRecord>,
) -> (r: Result<OrderRecord, Rejection>)
    ensures
        rejection::outcome(r) == changed_order_outcome(
            request@,
            order_id@,
            text::views(customers@),
            text::views(orders@),
        ),
{
    assert(request@.items.len() == request.items@.len());
    if !valid_deployment_type(request.deployment_type.as_str()) || request.items.len() == 0 {
        return Err(refuse(rejection::BAD_REQUEST, "订单信息不完整或平台类型无效"));
    }
    let total = match priced(&request.items) {
        Ok(total) => total,
        Err(flaw) => {
            return Err(flaw);
        },
    };
    let customer_id = text::trim_owned(request.customer_id.as_str());
    let customer = match lookup::find(customers, customer_id.as_str()) {
        Some(customer) => customer,
        None => {
            return Err(refuse(rejection::BAD_REQUEST, "客户不存在"));
        },
    };
    if !text::same(customer.status.as_str(), "active") {
        return Err(refuse(rejection::BAD_REQUEST, "停用客户不能关联订单"));
    }
    let existing = match lookup::find(orders, order_id) {
        Some(order) => order,
        None => {
            return Err(refuse(rejection::NOT_FOUND, "订单不存在"));
        },
    };
    if !text::same(existing.status.as_str(), "pending_payment") || existing.received_amount_cents
        > 0 {
        return Err(refuse(rejection::BAD_REQUEST, "只有未回款订单可以编辑"));
    }
    let mut order = existing.duplicate();
    order.customer_id = customer.customer_id.clone();
    order.customer_name = customer.name.clone();
    order.items = duplicate_all(&request.items);
    order.total_amount_cents = total;
    order.due_at = request.due_at;
    order.deployment_type = request.deployment_type.clone();
    order.notes = text::trim_owned(request.notes.as_str());
    Ok(order)
}

/// A number without its sign.
pub open spec fn magnitude(x: int) -> int {
    if x < 0 {
        -x
    } else {
        x
    }
}

/// The quotient of two numbers, rounded towards zero.
pub open spec fn quotient(a: int, b: int) -> int {
    if (a < 0) == (b < 0) {
        magnitude(a) / magnitude(b)
    } else {
        -(magnitude(a) / magnitude(b))
    }
}

/// What of a payment falls to an item of an order.
pub open spec fn share_of(item: OrderLineItemView, amount: int, total: int) -> int {
    quotient(amount_of(item) * amount, total)
}

/// The commission on a share of a payment.
pub open spec fn commission_on(share: int, rate: int) -> int {
    quotient(share * rate, 10_000)
}

/// A number without its sign.
fn without_sign(x: i64) -> (r: u64)
    ensures
        r == magnitude(x as int),
{
    if x < 0 {
        (-(x as i128)) as u64
    } else {
        x as u64
    }
}

/// The quotient of two numbers, rounded towards zero, where it is a 64-bit
/// number.
fn divided(a: i64, b: i64) -> (r: Option<i64>)
    requires
        b != 0,
    ensures
        match r {
            Some(q) => q == quotient(a as int, b as int),
            None => !is_64_bit(quotient(a as int, b as int)),
        },
        b > 1 ==> r is Some,
{
    let x = without_sign(a);
    let y = without_sign(b);
    let q: u64 = x / y;
    proof {
        assert(0 <= x as int / y as int <= x) by (nonlinear_arith)
            requires
                x >= 0,
                y > 0,
        ;
        if y > 1 {
            assert(2 * (x as int / y as int) <= x) by (nonlinear_arith)
                requires
                    x >= 0,
                    y > 1,
            ;
        }
    }
    if (a < 0) == (b < 0) {
        if q <= i64::MAX as u64 {
            Some(q as i64)
        } else {
            None
        }
    } else {
        Some((-(q as i128)) as i64)
    }
}

/// The rate of the commission on an item, if there is one.
pub open spec fn item_rate(
    item: OrderLineItemView,
    rules: Seq<commissions::CommissionRuleView>,
    now: i64,
) -> Option<i64> {
    commissions::rate_for(rules, commissions::product_type_of(item.kind), now as int)
}

/// The commission on what of a payment falls to an item.
pub open spec fn entry_for(
    order: OrderRecordView,
    provider_id: Seq<char>,
    item: OrderLineItemView,
    amount: int,
    rate: i64,
    entry_id: Seq<char>,
    now: i64,
) -> commissions::CommissionEntryView {
    let share = share_of(item, amount, order.total_amount_cents as int);
    commissions::CommissionEntryView {
        entry_id,
        order_id: order.order_id,
        provider_id,
        product_type: commissions::product_type_of(item.kind),
        received_amount_cents: share as i64,
        rate_basis_points: rate,
        commission_amount_cents: commission_on(share, rate as int) as i64,
        status: "pending_settlement"@,
        created_at: now,
    }
}

/// The commissions on a payment for the first `count` items of an order: one
/// for each item that a rule is in force for. `entry_ids` has an identifier
/// for each item.
pub open spec fn commissions_on(
    order: OrderRecordView,
    provider_id: Seq<char>,
    count: nat,
    amount: int,
    rules: Seq<commissions::CommissionRuleView>,
    entry_ids: Seq<Seq<char>>,
    now: i64,
) -> Seq<commissions::CommissionEntryView>
    decreases count,
{
    if count == 0 {
        Seq::empty()
    } else {
        let at = count - 1;
        let before = commissions_on(
            order,
            provider_id,
            at as nat,
            amount,
            rules,
            entry_ids,
            now,
        );
        match item_rate(order.items[at], rules, now) {
            Some(rate) => before.push(
                entry_for(order, provider_id, order.items[at], amount, rate, entry_ids[at], now),
            ),
            None => before,
        }
    }
}

/// Whether a number is a 64-bit number.
pub open spec fn is_64_bit(x: int) -> bool {
    i64::MIN <= x <= i64::MAX
}

/// Whether the amounts that go into the commission on an item are 64-bit
/// numbers.
pub open spec fn item_counts(
    item: OrderLineItemView,
    amount: int,
    total: int,
    rate: int,
) -> bool {
    &&& total != 0
    &&& is_64_bit(amount_of(item))
    &&& is_64_bit(amount_of(item) * amount)
    &&& is_64_bit(share_of(item, amount, total))
    &&& is_64_bit(share_of(item, amount, total) * rate)
}

/// Whether an order can take a payment by its status.
pub open spec fn takes_payments(order: OrderRecordView) -> bool {
    order.status != "cancelled"@ && order.status != "fulfilled"@
}

/// Whether the amounts that a payment leads to are 64-bit numbers.
pub open spec fn payment_counts(
    order_id: Seq<char>,
    request: RecordPaymentRequestView,
    orders: Seq<OrderRecordView>,
    rules: Seq<commissions::CommissionRuleView>,
    now: i64,
) -> bool {
    request.amount_cents > 0 && !text::blank(request.method) ==> (order_with(
        orders,
        order_id,
    ) matches Some(order) ==> (takes_payments(order) ==> {
        &&& order.received_amount_cents + request.amount_cents <= i64::MAX
        &&& order.received_amount_cents + request.amount_cents <= order.total_amount_cents
            && order.provider_id is Some ==> {
            forall|i: int|
                0 <= i < order.items.len() ==> (item_rate(
                    #[trigger] order.items[i],
                    rules,
                    now,
                ) matches Some(rate) ==> item_counts(
                    order.items[i],
                    request.amount_cents as int,
                    order.total_amount_cents as int,
                    rate as int,
                ))
        }
    }))
}

/// An order after a payment. Once all is received it is paid.
pub open spec fn with_payment(order: OrderRecordView, amount: int, now: i64) -> OrderRecordView {
    let received = order.received_amount_cents + amount;
    if received == order.total_amount_cents {
        OrderRecordView {
            received_amount_cents: received as i64,
            status: "paid"@,
            paid_at: Some(now),
            ..order
        }
    } else {
        OrderRecordView { received_amount_cents: received as i64, ..order }
    }
}

/// What a request to record a payment comes to.
pub open spec fn payment_outcome(
    order_id: Seq<char>,
    request: RecordPaymentRequestView,
    orders: Seq<OrderRecordView>,
    rules: Seq<commissions::CommissionRuleView>,
    transaction_id: Seq<char>,
    entry_ids: Seq<Seq<char>>,
    now: i64,
) -> Result<PaymentView, rejection::RejectionView> {
    if request.amount_cents <= 0 || text::blank(request.method) {
        Err(rejection::refusal(rejection::BAD_REQUEST, "回款金额和收款方式不能为空"@))
    } else {
        match order_with(orders, order_id) {
            None => Err(rejection::refusal(rejection::NOT_FOUND, "订单不存在"@)),
            Some(order) => if !takes_payments(order) {
                Err(rejection::refusal(rejection::BAD_REQUEST, "当前订单状态不能登记回款"@))
            } else if order.received_amount_cents + request.amount_cents
                > order.total_amount_cents {
                Err(rejection::refusal(rejection::BAD_REQUEST, "本次回款超过订单待收金额"@))
            } else {
                Ok(
                    PaymentView {
                        order: with_payment(order, request.amount_cents as int, now),
                        transaction: TransactionRecordView {
                            transaction_id,
                            order_id: order.order_id,
                            order_no: order.order_no,
                            customer_id: order.customer_id,
                            customer_name: order.customer_name,
                            amount_cents: request.amount_cents,
                            method: text::trimmed(request.method),
                            reference: text::trimmed(request.reference),
                            notes: text::trimmed(request.notes),
                            occurred_at: now,
                        },
                        commissions: match order.provider_id {
                            Some(provider_id) => commissions_on(
                                order,
                                provider_id,
                                order.items.len(),
                                request.amount_cents as int,
                                rules,
                                entry_ids,
                                now,
                            ),
                            None => Seq::empty(),
                        },
                    },
                )
            },
        }
    }
}

/// The commission on what of a payment falls to an item.
fn commission_entry(
    order: &OrderRecord,
    provider_id: &str,
    item: &OrderLineItem,
    amount: i64,
    rate: i64,
    entry_id: &str,
    now: i64,
) -> (r: CommissionEntry)
    requires
        item_counts(item@, amount as int, order.total_amount_cents as int, rate as int),
    ensures
        r@ == entry_for(order@, provider_id@, item@, amount as int, rate, entry_id@, now),
{
    let item_amount: i64 = item.unit_price_cents * item.quantity as i64;
    let product: i64 = item_amount * amount;
    let received: i64 = divided(product, order.total_amount_cents).unwrap();
    let commission: i64 = divided(received * rate, 10_000).unwrap();
    CommissionEntry {
        entry_id: entry_id.to_string(),
        order_id: order.order_id.clone(),
        provider_id: provider_id.to_string(),
        product_type: commissions::product_type(item.kind.as_str()),
        received_amount_cents: received,
        rate_basis_points: rate,
        commission_amount_cents: commission,
        status: "pending_settlement".to_string(),
        created_at: now,
    }
}

/// The commissions on a payment for an order.
fn payment_commissions(
    order: &OrderRecord,
    provider_id: &str,
    amount: i64,
    rules: &Vec<CommissionRule>,
    entry_ids: &Vec<String>,
    now: i64,
) -> (r: Vec<CommissionEntry>)
    requires
        amount > 0,
        entry_ids@.len() >= order.items@.len(),
        forall|i: int|
            0 <= i < order@.items.len() ==> (item_rate(
                #[trigger] order@.items[i],
                text::views(rules@),
                now,
            ) matches Some(rate) ==> item_counts(
                order@.items[i],
                amount as int,
                order.total_amount_cents as int,
                rate as int,
            )),
    ensures
        text::views(r@) == commissions_on(
            order@,
            provider_id@,
            order@.items.len(),
            amount as int,
            text::views(rules@),
            text::views(entry_ids@),
            now,
        ),
{
    let ghost table = text::views(rules@);
    let mut out: Vec<CommissionEntry> = Vec::new();
    let mut i: usize = 0;
    assert(text::views(out@) =~= Seq::<commissions::CommissionEntryView>::empty());
    while i < order.items.len()
        invariant
            i <= order.items@.len(),
            amount > 0,
            entry_ids@.len() >= order.items@.len(),
            order@.items.len() == order.items@.len(),
            table == text::views(rules@),
            forall|k: int|
                0 <= k < order@.items.len() ==> (item_rate(
                    #[trigger] order@.items[k],
                    table,
                    now,
                ) matches Some(rate) ==> item_counts(
                    order@.items[k],
                    amount as int,
                    order.total_amount_cents as int,
                    rate as int,
                )),
            text::views(out@) == commissions_on(
                order@,
                provider_id@,
                i as nat,
                amount as int,
                table,
                text::views(entry_ids@),
                now,
            ),
        decreases order.items@.len() - i,
    {
        let item = &order.items[i];
        assert(order@.items[i as int] == item@);
        assert(text::views(entry_ids@)[i as int] == entry_ids@[i as int]@);
        let kind = commissions::product_type(item.kind.as_str());
        match commissions::commission_rate(rules, kind.as_str(), now) {
            Some(rate) => {
                let entry = commission_entry(
                    order,
                    provider_id,
                    item,
                    amount,
                    rate,
                    entry_ids[i].as_str(),
                    now,
                );
                proof {
                    text::lemma_views_push(out@, entry);
                }
                out.push(entry);
            },
            None => {},
        }
        i = i + 1;
    }
    out
}

/// Records a payment as a transaction with a given identifier, at a given
/// time. `entry_ids` has an identifier for the commission on each item.
pub fn take_payment(
    order_id: &str,
    request: &RecordPaymentRequest,
    orders: &Vec<OrderRecord>,
    rules: &Vec<CommissionRule>,
    transaction_id: String,
    entry_ids: &Vec<String>,
    now: i64,
) -> (r: Result<Payment, Rejection>)
    requires
        payment_counts(order_id@, request@, text::views(orders@), text::views(rules@), now),
        order_with(text::views(orders@), order_id@) matches Some(order) ==> entry_ids@.len()
            >= order.items.len(),
    ensures
        rejection::outcome(r) == payment_outcome(
            order_id@,
            request@,
            text::views(orders@),
            text::views(rules@),
            transaction_id@,
            text::views(entry_ids@),
            now,
        ),
{
    let amount = request.amount_cents;
    if amount <= 0 || text::is_blank(request.method.as_str()) {
        return Err(refuse(rejection::BAD_REQUEST, "回款金额和收款方式不能为空"));
    }
    let order = match lookup::find(orders, order_id) {
        Some(order) => order,
        None => {
            return Err(refuse(rejection::NOT_FOUND, "订单不存在"));
        },
    };
    assert(order_with(text::views(orders@), order_id@) == Some(order@));
    if text::same(order.status.as_str(), "cancelled") || text::same(
        order.status.as_str(),
        "fulfilled",
    ) {
        return Err(refuse(rejection::BAD_REQUEST, "当前订单状态不能登记回款"));
    }
    assert(order@.received_amount_cents + amount <= i64::MAX);
    let received: i64 = order.received_amount_cents + amount;
    if received > order.total_amount_cents {
        return Err(refuse(rejection::BAD_REQUEST, "本次回款超过订单待收金额"));
    }
    let commissions = match &order.provider_id {
        Some(provider_id) => payment_commissions(
            order,
            provider_id.as_str(),
            amount,
            rules,
            entry_ids,
            now,
        ),
        None => Vec::new(),
    };
    let transaction = TransactionRecord {
        transaction_id,
        order_id: order.order_id.clone(),
        order_no: order.order_no.clone(),
        customer_id: order.customer_id.clone(),
        customer_name: order.customer_name.clone(),
        amount_cents: amount,
        method: text::trim_owned(request.method.as_str()),
        reference: text::trim_owned(request.reference.as_str()),
        notes: text::trim_owned(request.notes.as_str()),
        occurred_at: now,
    };
    let mut after = order.duplicate();
    after.received_amount_cents = received;
    if received == order.total_amount_cents {
        after.status = "paid".to_string();
        after.paid_at = Some(now);
    }
    assert(order@.provider_id is None ==> text::views(commissions@) =~= Seq::<
        commissions::CommissionEntryView,
    >::empty());
    Ok(Payment { order: after, transaction, commissions })
}

/// Whether the amounts that go into the commission on an item are 64-bit
/// numbers.
fn can_count_item(item: &OrderLineItem, amount: i64, total: i64, rate: i64) -> (r: bool)
    ensures
        r == item_counts(item@, amount as int, total as int, rate as int),
{
    if total == 0 {
        return false;
    }
    let item_amount = match item.unit_price_cents.checked_mul(item.quantity as i64) {
        Some(x) => x,
        None => {
            return false;
        },
    };
    let product = match item_amount.checked_mul(amount) {
        Some(x) => x,
        None => {
            return false;
        },
    };
    match divided(product, total) {
        Some(received) => received.checked_mul(rate).is_some(),
        None => false,
    }
}

/// Whether the amounts that a payment leads to are 64-bit numbers.
pub fn can_count_payment(
    order_id: &str,
    request: &RecordPaymentRequest,
    orders: &Vec<OrderRecord>,
    rules: &Vec<CommissionRule>,
    now: i64,
) -> (r: bool)
    ensures
        r == payment_counts(order_id@, request@, text::views(orders@), text::views(rules@), now),
{
    let amount = request.amount_cents;
    if amount <= 0 || text::is_blank(request.method.as_str()) {
        return true;
    }
    let order = match lookup::find(orders, order_id) {
        Some(order) => order,
        None => {
            return true;
        },
    };
    assert(order_with(text::views(orders@), order_id@) == Some(order@));
    if text::same(order.status.as_str(), "cancelled") || text::same(
        order.status.as_str(),
        "fulfilled",
    ) {
        return true;
    }
    let received = match order.received_amount_cents.checked_add(amount) {
        Some(x) => x,
        None => {
            return false;
        },
    };
    let total = order.total_amount_cents;
    if received > total || order.provider_id.is_none() {
        return true;
    }
    let ghost table = text::views(rules@);
    let mut i: usize = 0;
    while i < order.items.len()
        invariant
            i <= order.items@.len(),
            order@.items.len() == order.items@.len(),
            amount > 0,
            amount == request@.amount_cents,
            total == order@.total_amount_cents,
            table == text::views(rules@),
            order_with(text::views(orders@), order_id@) == Some(order@),
            !text::blank(request@.method),
            takes_payments(order@),
            order@.received_amount_cents + request@.amount_cents <= order@.total_amount_cents,
            order@.provider_id is Some,
            forall|k: int|
                0 <= k < i ==> (item_rate(
                    #[trigger] order@.items[k],
                    table,
                    now,
                ) matches Some(rate) ==> item_counts(
                    order@.items[k],
                    amount as int,
                    total as int,
                    rate as int,
                )),
        decreases order.items@.len() - i,
    {
        let item = &order.items[i];
        assert(order@.items[i as int] == item@);
        let kind = commissions::product_type(item.kind.as_str());
        match commissions::commission_rate(rules, kind.as_str(), now) {
            Some(rate) => {
                assert(item_rate(order@.items[i as int], table, now) == Some(rate));
                if !can_count_item(item, amount, total, rate) {
                    return false;
                }
            },
            None => {},
        }
        i = i + 1;
    }
    true
}

/// Whether all texts of a list are resource identifiers with a prefix.
pub open spec fn all_resource_ids(list: Seq<Seq<char>>, prefix: Seq<char>) -> bool {
    forall|i: int| 0 <= i < list.len() ==> ids::is_resource_id(#[trigger] list[i], prefix)
}

/// As many new identifiers of ledger entries as are asked for.
fn new_entry_ids(count: usize) -> (r: Vec<String>)
    ensures
        r@.len() == count,
        all_resource_ids(text::views(r@), "cme"@),
{
    let mut out: Vec<String> = Vec::new();
    let mut i: usize = 0;
    while i < count
        invariant
            i <= count,
            out@.len() == i,
            forall|k: int| 0 <= k < i ==> ids::is_resource_id((#[trigger] out@[k])@, "cme"@),
        decreases count - i,
    {
        out.push(ids::generated_resource_id("cme"));
        i = i + 1;
    }
    assert forall|k: int| 0 <= k < out@.len() implies ids::is_resource_id(
        #[trigger] text::views(out@)[k],
        "cme"@,
    ) by {
        assert(ids::is_resource_id(out@[k]@, "cme"@));
    }
    out
}

/// Records a payment as a transaction with a given identifier, at a given time.
/// `entry_ids` has an identifier for the commission on each item. Gives nothing
/// exactly where an amount is not a 64-bit number.
pub fn record_payment_at(
    order_id: &str,
    request: &RecordPaymentRequest,
    orders: &Vec<OrderRecord>,
    rules: &Vec<CommissionRule>,
    transaction_id: String,
    entry_ids: &Vec<String>,
    now: i64,
) -> (r: Option<Result<Payment, Rejection>>)
    requires
        order_with(text::views(orders@), order_id@) matches Some(order) ==> entry_ids@.len()
            >= order.items.len(),
    ensures
        r is None <==> !payment_counts(
            order_id@,
            request@,
            text::views(orders@),
            text::views(rules@),
            now,
        ),
        r matches Some(done) ==> rejection::outcome(done) == payment_outcome(
            order_id@,
            request@,
            text::views(orders@),
            text::views(rules@),
            transaction_id@,
            text::views(entry_ids@),
            now,
        ),
{
    if !can_count_payment(order_id, request, orders, rules, now) {
        return None;
    }
    Some(take_payment(order_id, request, orders, rules, transaction_id, entry_ids, now))
}

/// Records a payment now, as a transaction and commissions with new
/// identifiers. Gives nothing where an amount is not a 64-bit number.
pub fn record_payment(
    order_id: &str,
    request: &RecordPaymentRequest,
    orders: &Vec<OrderRecord>,
    rules: &Vec<CommissionRule>,
) -> (r: Option<Result<Payment, Rejection>>)
    ensures
        exists|id: Seq<char>, entry_ids: Seq<Seq<char>>, now: i64| #[trigger]
            ids::is_record_id_at(id, "txn_"@, now) && #[trigger] all_resource_ids(
                entry_ids,
                "cme"@,
            ) && (match r {
                Some(done) => {
                    &&& payment_counts(
                        order_id@,
                        request@,
                        text::views(orders@),
                        text::views(rules@),
                        now,
                    )
                    &&& order_with(text::views(orders@), order_id@) matches Some(order)
                        ==> entry_ids.len() == order.items.len()
                    &&& rejection::outcome(done) == payment_outcome(
                        order_id@,
                        request@,
                        text::views(orders@),
                        text::views(rules@),
                        id,
                        entry_ids,
                        now,
                    )
                },
                None => !payment_counts(
                    order_id@,
                    request@,
                    text::views(orders@),
                    text::views(rules@),
                    now,
                ),
            }),
{
    let now = clock::now();
    let id = ids::generated_record_id("txn_");
    assert(ids::is_record_id_at(id@, "txn_"@, now));
    let count: usize = match lookup::find(orders, order_id) {
        Some(order) => {
            assert(order@.items.len() == order.items@.len());
            order.items.len()
        },
        None => 0,
    };
    let entry_ids = new_entry_ids(count);
    let ghost entry_id_texts = text::views(entry_ids@);
    assert(all_resource_ids(entry_id_texts, "cme"@));
    record_payment_at(order_id, request, orders, rules, id, &entry_ids, now)
}

/// Whether a payment was received for an order.
pub open spec fn was_paid_for(
    order_id: Seq<char>,
    transactions: Seq<TransactionRecordView>,
) -> bool {
    exists|i: int| 0 <= i < transactions.len() && (#[trigger] transactions[i]).order_id == order_id
}

/// What a request to cancel an order comes to. Only an order that waits for
/// payment, and for which none was received, can be cancelled.
pub open spec fn cancelled_outcome(
    order_id: Seq<char>,
    orders: Seq<OrderRecordView>,
    transactions: Seq<TransactionRecordView>,
) -> Result<OrderRecordView, rejection::RejectionView> {
    match order_with(orders, order_id) {
        Some(order) => if order.status == "pending_payment"@ && !was_paid_for(
            order_id,
            transactions,
        ) {
            Ok(OrderRecordView { status: "cancelled"@, ..order })
        } else {
            Err(rejection::refusal(rejection::BAD_REQUEST, "只有未回款订单可以取消"@))
        },
        None => Err(rejection::refusal(rejection::BAD_REQUEST, "只有未回款订单可以取消"@)),
    }
}

/// Cancels an order.
pub fn cancel_order(
    order_id: &str,
    orders: &Vec<OrderRecord>,
    transactions: &Vec<TransactionRecord>,
) -> (r: Result<OrderRecord, Rejection>)
    ensures
        rejection::outcome(r) == cancelled_outcome(
            order_id@,
            text::views(orders@),
            text::views(transactions@),
        ),
{
    let existing = match lookup::find(orders, order_id) {
        Some(order) => order,
        None => {
            return Err(refuse(rejection::BAD_REQUEST, "只有未回款订单可以取消"));
        },
    };
    let mut i: usize = 0;
    while i < transactions.len()
        invariant
            i <= transactions@.len(),
            order_with(text::views(orders@), order_id@) == Some(existing@),
            forall|k: int| 0 <= k < i ==> (#[trigger] transactions@[k])@.order_id != order_id@,
        decreases transactions@.len() - i,
    {
        if text::same(transactions[i].order_id.as_str(), order_id) {
            assert(text::views(transactions@)[i as int].order_id == order_id@);
            return Err(refuse(rejection::BAD_REQUEST, "只有未回款订单可以取消"));
        }
        i = i + 1;
    }
    assert forall|k: int| 0 <= k < transactions@.len() implies (#[trigger] text::views(
        transactions@,
    )[k]).order_id != order_id@ by {
        assert(transactions@[k]@.order_id != order_id@);
    }
    if !text::same(existing.status.as_str(), "pending_payment") {
        return Err(refuse(rejection::BAD_REQUEST, "只有未回款订单可以取消"));
    }
    let mut order = existing.duplicate();
    order.status = "cancelled".to_string();
    Ok(order)
}

/// An order whose total is the price of its items, none of them at a negative
/// price, and for which nothing negative was received.
pub open spec fn valid_order(order: OrderRecordView) -> bool {
    &&& forall|i: int|
        0 <= i < order.items.len() ==> (#[trigger] order.items[i]).unit_price_cents >= 0
    &&& order.total_amount_cents == amount_due(order.items)
    &&& order.total_amount_cents > 0
    &&& order.received_amount_cents >= 0
}

/// An order that is made is valid.
pub proof fn law_new_order_is_valid(
    request: CreateOrderRequestView,
    customers: Seq<customers::CustomerRecordView>,
    providers: Seq<commissions::ProviderRecordView>,
    order_id: Seq<char>,
    order_no: Seq<char>,
    now: i64,
)
    ensures
        new_order_outcome(
            request,
            customers,
            providers,
            order_id,
            order_no,
            now,
        ) matches Ok(order) ==> valid_order(order),
{
    if new_order_outcome(request, customers, providers, order_id, order_no, now) is Ok {
        assert forall|i: int| 0 <= i < request.items.len() implies (
            #[trigger] request.items[i]).unit_price_cents >= 0 by {
            assert(is_sound(request.items[i]));
        }
    }
}

/// Changing, paying and cancelling an order keeps it valid.
pub proof fn law_orders_stay_valid(
    request: CreateOrderRequestView,
    payment: RecordPaymentRequestView,
    order_id: Seq<char>,
    customers: Seq<customers::CustomerRecordView>,
    orders: Seq<OrderRecordView>,
    rules: Seq<commissions::CommissionRuleView>,
    transactions: Seq<TransactionRecordView>,
    transaction_id: Seq<char>,
    entry_ids: Seq<Seq<char>>,
    now: i64,
)
    requires
        forall|i: int| 0 <= i < orders.len() ==> valid_order(#[trigger] orders[i]),
    ensures
        changed_order_outcome(request, order_id, customers, orders) matches Ok(order)
            ==> valid_order(order),
        payment_outcome(
            order_id,
            payment,
            orders,
            rules,
            transaction_id,
            entry_ids,
            now,
        ) matches Ok(done) ==> valid_order(done.order),
        cancelled_outcome(order_id, orders, transactions) matches Ok(order) ==> valid_order(order),
{
    lookup::lemma_found::<OrderRecord>(orders, order_id);
    match order_with(orders, order_id) {
        Some(order) => {
            let k = orders.index_of(order);
            assert(valid_order(orders[k]));
        },
        None => {},
    }
    if changed_order_outcome(request, order_id, customers, orders) is Ok {
        assert forall|i: int| 0 <= i < request.items.len() implies (
            #[trigger] request.items[i]).unit_price_cents >= 0 by {
            assert(is_sound(request.items[i]));
        }
    }
}

/// Payments never come to more than the total of an order, and an order is
/// paid by the payment that completes the total and by no other.
pub proof fn law_payments_never_exceed_the_total(
    order_id: Seq<char>,
    request: RecordPaymentRequestView,
    orders: Seq<OrderRecordView>,
    rules: Seq<commissions::CommissionRuleView>,
    transaction_id: Seq<char>,
    entry_ids: Seq<Seq<char>>,
    now: i64,
)
    requires
        order_with(orders, order_id) matches Some(order) ==> order.received_amount_cents >= 0
            && order.status != "paid"@,
    ensures
        payment_outcome(
            order_id,
            request,
            orders,
            rules,
            transaction_id,
            entry_ids,
            now,
        ) matches Ok(done) ==> {
            let before = order_with(orders, order_id)->Some_0;
            &&& done.order.received_amount_cents == before.received_amount_cents
                + done.transaction.amount_cents
            &&& before.received_amount_cents < done.order.received_amount_cents
                <= done.order.total_amount_cents
            &&& done.order.status == "paid"@ <==> done.order.received_amount_cents
                == done.order.total_amount_cents
            &&& done.order.status == "paid"@ ==> done.order.paid_at == Some(now)
        },
{
}

/// An order that is paid takes no more payments.
pub proof fn law_paid_order_takes_no_payment(
    order_id: Seq<char>,
    request: RecordPaymentRequestView,
    orders: Seq<OrderRecordView>,
    rules: Seq<commissions::CommissionRuleView>,
    transaction_id: Seq<char>,
    entry_ids: Seq<Seq<char>>,
    now: i64,
)
    requires
        order_with(orders, order_id) matches Some(order) && order.received_amount_cents
            >= order.total_amount_cents,
    ensures
        payment_outcome(
            order_id,
            request,
            orders,
            rules,
            transaction_id,
            entry_ids,
            now,
        ) is Err,
{
}

/// An order that was cancelled, paid or fulfilled can be neither changed nor
/// cancelled.
pub proof fn law_closed_order_is_fixed(
    request: CreateOrderRequestView,
    order_id: Seq<char>,
    customers: Seq<customers::CustomerRecordView>,
    orders: Seq<OrderRecordView>,
    transactions: Seq<TransactionRecordView>,
)
    requires
        order_with(orders, order_id) matches Some(order) && (order.status == "cancelled"@
            || order.status == "paid"@ || order.status == "fulfilled"@),
    ensures
        changed_order_outcome(request, order_id, customers, orders) is Err,
        cancelled_outcome(order_id, orders, transactions) is Err,
{
    reveal_strlit("cancelled");
    reveal_strlit("paid");
    reveal_strlit("fulfilled");
    reveal_strlit("pending_payment");
    assert("pending_payment"@.len() == 15);
    assert("cancelled"@.len() == 9);
    assert("paid"@.len() == 4);
    assert("fulfilled"@.len() == 9);
}

/// The shares of a payment that commissions are counted on.
pub open spec fn shares_sum(entries: Seq<commissions::CommissionEntryView>) -> int
    decreases entries.len(),
{
    if entries.len() == 0 {
        0
    } else {
        shares_sum(entries.drop_last()) + entries.last().received_amount_cents
    }
}

/// The commissions of some entries together.
pub open spec fn commissions_sum(entries: Seq<commissions::CommissionEntryView>) -> int
    decreases entries.len(),
{
    if entries.len() == 0 {
        0
    } else {
        commissions_sum(entries.drop_last()) + entries.last().commission_amount_cents
    }
}

proof fn lemma_share_bounds(item: OrderLineItemView, amount: int, total: int, rate: int)
    requires
        amount > 0,
        total > 0,
        item.unit_price_cents >= 0,
        commissions::is_rate(rate),
    ensures
        share_of(item, amount, total) >= 0,
        share_of(item, amount, total) * total <= amount_of(item) * amount,
        0 <= commission_on(share_of(item, amount, total), rate) <= share_of(item, amount, total),
{
    lemma_amount_of(item);
    let product = amount_of(item) * amount;
    let share = product / total;
    assert(product >= 0) by (nonlinear_arith)
        requires
            product == amount_of(item) * amount,
            amount_of(item) >= 0,
            amount > 0,
    ;
    assert(share >= 0 && share * total <= product) by (nonlinear_arith)
        requires
            product >= 0,
            total > 0,
            share == product / total,
    ;
    let scaled = share * rate;
    assert(0 <= scaled <= share * 10_000) by (nonlinear_arith)
        requires
            scaled == share * rate,
            share >= 0,
            0 <= rate <= 10_000,
    ;
    assert(quotient(product, total) == share);
    assert(quotient(scaled, 10_000) == scaled / 10_000);
}

proof fn lemma_shares_within(
    order: OrderRecordView,
    provider_id: Seq<char>,
    count: nat,
    amount: int,
    rules: Seq<commissions::CommissionRuleView>,
    entry_ids: Seq<Seq<char>>,
    now: i64,
)
    requires
        valid_order(order),
        count <= order.items.len(),
        0 < amount <= order.total_amount_cents,
        forall|i: int|
            0 <= i < rules.len() ==> commissions::is_rate(
                (#[trigger] rules[i]).rate_basis_points as int,
            ),
    ensures
        shares_sum(
            commissions_on(order, provider_id, count, amount, rules, entry_ids, now),
        ) * order.total_amount_cents <= amount_due(order.items.take(count as int)) * amount,
        0 <= commissions_sum(
            commissions_on(order, provider_id, count, amount, rules, entry_ids, now),
        ) <= shares_sum(commissions_on(order, provider_id, count, amount, rules, entry_ids, now)),
    decreases count,
{
    if count == 0 {
        assert(order.items.take(0) =~= Seq::<OrderLineItemView>::empty());
    } else {
        let at = count - 1;
        let item = order.items[at];
        let total = order.total_amount_cents as int;
        let before = commissions_on(
            order,
            provider_id,
            at as nat,
            amount,
            rules,
            entry_ids,
            now,
        );
        lemma_shares_within(order, provider_id, at as nat, amount, rules, entry_ids, now);
        assert(item.unit_price_cents >= 0);
        lemma_amount_of(item);
        let items = order.items;
        assert(items.take(count as int).drop_last() =~= items.take(at));
        let rest = amount_due(items.take(at));
        assert(amount_due(items.take(count as int)) == rest + amount_of(item));
        assert((rest + amount_of(item)) * amount == rest * amount + amount_of(item) * amount)
            by (nonlinear_arith);
        assert(amount_of(item) * amount >= 0) by (nonlinear_arith)
            requires
                amount_of(item) >= 0,
                amount > 0,
        ;
        match item_rate(item, rules, now) {
            Some(rate) => {
                let kind = commissions::product_type_of(item.kind);
                commissions::law_rule_is_latest_in_force(rules, kind, now as int);
                let rule = commissions::rule_for(rules, kind, now as int)->Some_0;
                let k = rules.index_of(rule);
                assert(commissions::is_rate(rules[k].rate_basis_points as int));
                lemma_share_bounds(item, amount, total, rate as int);
                let share = share_of(item, amount, total);
                assert(share <= amount) by {
                    lemma_amount_grows(items, count as int);
                    lemma_amount_grows(items, at);
                    assert(share <= amount) by (nonlinear_arith)
                        requires
                            share * total <= amount_of(item) * amount,
                            amount_of(item) <= total,
                            amount > 0,
                            total > 0,
                    ;
                }
                let entry = entry_for(
                    order,
                    provider_id,
                    item,
                    amount,
                    rate,
                    entry_ids[at],
                    now,
                );
                assert(entry.received_amount_cents == share);
                let after = before.push(entry);
                assert(after.drop_last() =~= before);
                let s = shares_sum(before);
                assert((s + share) * total == s * total + share * total) by (nonlinear_arith);
            },
            None => {},
        }
    }
}

/// The commissions on a payment are counted on no more than the payment, and
/// come to no more than what they are counted on.
pub proof fn law_commissions_are_within_the_payment(
    order_id: Seq<char>,
    request: RecordPaymentRequestView,
    orders: Seq<OrderRecordView>,
    rules: Seq<commissions::CommissionRuleView>,
    transaction_id: Seq<char>,
    entry_ids: Seq<Seq<char>>,
    now: i64,
)
    requires
        order_with(orders, order_id) matches Some(order) ==> valid_order(order),
        forall|i: int|
            0 <= i < rules.len() ==> commissions::is_rate(
                (#[trigger] rules[i]).rate_basis_points as int,
            ),
    ensures
        payment_outcome(
            order_id,
            request,
            orders,
            rules,
            transaction_id,
            entry_ids,
            now,
        ) matches Ok(done) ==> 0 <= commissions_sum(done.commissions) <= shares_sum(
            done.commissions,
        ) <= request.amount_cents,
{
    match payment_outcome(order_id, request, orders, rules, transaction_id, entry_ids, now) {
        Ok(done) => {
            let order = order_with(orders, order_id)->Some_0;
            let amount = request.amount_cents as int;
            let total = order.total_amount_cents as int;
            match order.provider_id {
                Some(provider_id) => {
                    lemma_shares_within(
                        order,
                        provider_id,
                        order.items.len(),
                        amount,
                        rules,
                        entry_ids,
                        now,
                    );
                    assert(order.items.take(order.items.len() as int) =~= order.items);
                    let s = shares_sum(done.commissions);
                    assert(s <= amount) by (nonlinear_arith)
                        requires
                            s * total <= total * amount,
                            total > 0,
                    ;
                },
                None => {},
            }
        },
        Err(_) => {},
    }
}

/// The price of items together is the sum of what each of them costs, its unit
/// price as many times as it is ordered.
pub proof fn law_total_is_the_sum_of_prices(
    items: Seq<OrderLineItemView>,
    more: Seq<OrderLineItemView>,
    item: OrderLineItemView,
)
    ensures
        amount_due(Seq::empty()) == 0,
        amount_due(seq![item]) == item.unit_price_cents * item.quantity,
        amount_due(items + more) == amount_due(items) + amount_due(more),
    decreases more.len(),
{
    assert(seq![item].drop_last() =~= Seq::<OrderLineItemView>::empty());
    reveal_with_fuel(amount_due, 2);
    if more.len() == 0 {
        assert(items + more =~= items);
    } else {
        law_total_is_the_sum_of_prices(items, more.drop_last(), item);
        assert((items + more).drop_last() =~= items + more.drop_last());
        assert((items + more).last() == more.last());
    }
}

/// An order that is made belongs to the provider that the request names and to
/// the customer that it names, and has the deployment type, the due date, the
/// notes and the items that it asks for. It costs what the items cost; nothing
/// was received for it yet, and it has no license.
pub proof fn law_new_order_is_as_requested(
    request: CreateOrderRequestView,
    customers: Seq<customers::CustomerRecordView>,
    providers: Seq<commissions::ProviderRecordView>,
    order_id: Seq<char>,
    order_no: Seq<char>,
    now: i64,
)
    ensures
        new_order_outcome(request, customers, providers, order_id, order_no, now) matches Ok(order)
            ==> {
            &&& order.order_id == order_id
            &&& order.order_no == order_no
            &&& order.created_at == now
            &&& order.provider_id == request.provider_id
            &&& order.deployment_type == request.deployment_type
            &&& order.due_at == request.due_at
            &&& order.items == request.items
            &&& order.notes == text::trimmed(request.notes)
            &&& order.customer_id == text::trimmed(request.customer_id)
            &&& exists|i: int|
                0 <= i < customers.len() && (#[trigger] customers[i]).customer_id
                    == order.customer_id && customers[i].name == order.customer_name
                    && customers[i].status == "active"@
            &&& order.total_amount_cents == amount_due(request.items)
            &&& order.received_amount_cents == 0
            &&& order.status == "pending_payment"@
            &&& order.paid_at is None
            &&& order.license_id is None
        },
{
    let id = text::trimmed(request.customer_id);
    lookup::lemma_found::<CustomerRecord>(customers, id);
    match customers::customer_with(customers, id) {
        Some(customer) => {
            let i = customers.index_of(customer);
            assert(customers[i] == customer);
        },
        None => {},
    }
}

/// An order is made exactly where it asks for a known deployment type and for at
/// least one item, where each item has a title, a known kind, a quantity and a
/// price that is not negative, where all together cost something that can be
/// counted, and where the customer and the provider, if one is named, are there
/// and active.
pub proof fn law_order_is_made_when_it_is_complete(
    request: CreateOrderRequestView,
    customers: Seq<customers::CustomerRecordView>,
    providers: Seq<commissions::ProviderRecordView>,
    order_id: Seq<char>,
    order_no: Seq<char>,
    now: i64,
)
    ensures
        new_order_outcome(request, customers, providers, order_id, order_no, now) is Ok <==> {
            &&& request.deployment_type == "saas"@ || request.deployment_type == "local"@
            &&& request.items.len() >= 1
            &&& forall|i: int|
                0 <= i < request.items.len() ==> {
                    let item = #[trigger] request.items[i];
                    &&& text::trimmed(item.title).len() > 0
                    &&& item.quantity >= 1
                    &&& item.unit_price_cents >= 0
                    &&& item.kind == "platform"@ || item.kind == "module"@ || item.kind
                        == "ai_employee"@ || item.kind == "service"@
                }
            &&& 1 <= amount_due(request.items) <= i64::MAX
            &&& lookup::found::<CustomerRecord>(
                customers,
                text::trimmed(request.customer_id),
            ) matches Some(customer) && customer.status == "active"@
            &&& request.provider_id matches Some(id) ==> (lookup::found::<ProviderRecord>(
                providers,
                id,
            ) matches Some(provider) && provider.status == "active"@)
        },
{
    assert forall|i: int| 0 <= i < request.items.len() implies is_sound(
        #[trigger] request.items[i],
    ) == {
        let item = request.items[i];
        &&& text::trimmed(item.title).len() > 0
        &&& item.quantity >= 1
        &&& item.unit_price_cents >= 0
        &&& item.kind == "platform"@ || item.kind == "module"@ || item.kind == "ai_employee"@
            || item.kind == "service"@
    } by {}
}

/// A changed order has what the request asks for, of the customer that it names,
/// and is otherwise the order that it was: with its number, its provider, its
/// status and all that was received for it.
pub proof fn law_changed_order_is_as_requested(
    request: CreateOrderRequestView,
    order_id: Seq<char>,
    customers: Seq<customers::CustomerRecordView>,
    orders: Seq<OrderRecordView>,
)
    ensures
        changed_order_outcome(request, order_id, customers, orders) matches Ok(changed) ==> {
            &&& changed.deployment_type == request.deployment_type
            &&& changed.due_at == request.due_at
            &&& changed.items == request.items
            &&& changed.notes == text::trimmed(request.notes)
            &&& changed.total_amount_cents == amount_due(request.items)
            &&& changed.customer_id == text::trimmed(request.customer_id)
            &&& exists|i: int|
                0 <= i < customers.len() && (#[trigger] customers[i]).customer_id
                    == changed.customer_id && customers[i].name == changed.customer_name
                    && customers[i].status == "active"@
            &&& exists|i: int|
                0 <= i < orders.len() && is_same_sale(#[trigger] orders[i], changed)
                    && orders[i].order_id == order_id && orders[i].status == "pending_payment"@
                    && orders[i].received_amount_cents <= 0
        },
{
    let id = text::trimmed(request.customer_id);
    lookup::lemma_found::<CustomerRecord>(customers, id);
    lookup::lemma_found::<OrderRecord>(orders, order_id);
    match customers::customer_with(customers, id) {
        Some(customer) => {
            let i = customers.index_of(customer);
            assert(customers[i] == customer);
        },
        None => {},
    }
    match order_with(orders, order_id) {
        Some(order) => {
            let i = orders.index_of(order);
            assert(orders[i] == order);
            match changed_order_outcome(request, order_id, customers, orders) {
                Ok(changed) => {
                    assert(is_same_sale(orders[i], changed));
                },
                Err(_) => {},
            }
        },
        None => {},
    }
}

/// Whether two orders agree in all that a change of an order leaves alone.
pub open spec fn is_same_sale(a: OrderRecordView, b: OrderRecordView) -> bool {
    &&& a.order_id == b.order_id
    &&& a.order_no == b.order_no
    &&& a.provider_id == b.provider_id
    &&& a.status == b.status
    &&& a.received_amount_cents == b.received_amount_cents
    &&& a.created_at == b.created_at
    &&& a.paid_at == b.paid_at
    &&& a.license_id == b.license_id
}

/// A complete request changes the order exactly where the order is there, waits
/// for payment, and nothing was received for it.
pub proof fn law_unpaid_order_can_be_changed(
    request: CreateOrderRequestView,
    order_id: Seq<char>,
    customers: Seq<customers::CustomerRecordView>,
    orders: Seq<OrderRecordView>,
    providers: Seq<commissions::ProviderRecordView>,
    order_no: Seq<char>,
    now: i64,
)
    requires
        request.provider_id is None,
        new_order_outcome(request, customers, providers, order_id, order_no, now) is Ok,
    ensures
        changed_order_outcome(request, order_id, customers, orders) is Ok <==> (lookup::found::<
            OrderRecord,
        >(orders, order_id) matches Some(order) && order.status == "pending_payment"@
            && order.received_amount_cents <= 0),
{
}

/// A request that no order could be made of changes none either.
pub proof fn law_incomplete_change_is_refused(
    request: CreateOrderRequestView,
    order_id: Seq<char>,
    customers: Seq<customers::CustomerRecordView>,
    orders: Seq<OrderRecordView>,
    providers: Seq<commissions::ProviderRecordView>,
    order_no: Seq<char>,
    now: i64,
)
    requires
        request.provider_id is None,
        new_order_outcome(request, customers, providers, order_id, order_no, now) is Err,
    ensures
        changed_order_outcome(request, order_id, customers, orders) is Err,
{
}

/// An order that is cancelled was waiting for payment, none of the payments is
/// for it, and nothing but its status changes.
pub proof fn law_cancelled_order_changes_status_only(
    order_id: Seq<char>,
    orders: Seq<OrderRecordView>,
    transactions: Seq<TransactionRecordView>,
)
    ensures
        cancelled_outcome(order_id, orders, transactions) matches Ok(cancelled) ==> {
            &&& cancelled.status == "cancelled"@
            &&& cancelled.order_id == order_id
            &&& orders.contains((OrderRecordView { status: "pending_payment"@, ..cancelled }))
            &&& forall|i: int|
                0 <= i < transactions.len() ==> (#[trigger] transactions[i]).order_id != order_id
        },
        cancelled_outcome(order_id, orders, transactions) is Ok <==> {
            &&& lookup::found::<OrderRecord>(orders, order_id) matches Some(order) && order.status
                == "pending_payment"@
            &&& forall|i: int|
                0 <= i < transactions.len() ==> (#[trigger] transactions[i]).order_id != order_id
        },
{
    lookup::lemma_found::<OrderRecord>(orders, order_id);
    match cancelled_outcome(order_id, orders, transactions) {
        Ok(cancelled) => {
            let order = order_with(orders, order_id)->Some_0;
            assert((OrderRecordView { status: "pending_payment"@, ..cancelled }) == order);
        },
        Err(_) => {},
    }
}

/// A payment is recorded as it was made: for the order and the customer of the
/// order, with the amount, the method, the reference and the notes of the
/// request. The order has received that much more; it is paid once it has
/// received all it costs, and is otherwise what it was.
pub proof fn law_payment_is_recorded_as_made(
    order_id: Seq<char>,
    request: RecordPaymentRequestView,
    orders: Seq<OrderRecordView>,
    rules: Seq<commissions::CommissionRuleView>,
    transaction_id: Seq<char>,
    entry_ids: Seq<Seq<char>>,
    now: i64,
    i: int,
)
    requires
        0 <= i < orders.len(),
        orders[i].order_id == order_id,
        forall|j: int| 0 <= j < i ==> (#[trigger] orders[j]).order_id != order_id,
    ensures
        payment_outcome(
            order_id,
            request,
            orders,
            rules,
            transaction_id,
            entry_ids,
            now,
        ) matches Ok(done) ==> {
            let order = orders[i];
            &&& done.transaction.transaction_id == transaction_id
            &&& done.transaction.order_id == order.order_id
            &&& done.transaction.order_no == order.order_no
            &&& done.transaction.customer_id == order.customer_id
            &&& done.transaction.customer_name == order.customer_name
            &&& done.transaction.amount_cents == request.amount_cents
            &&& done.transaction.method == text::trimmed(request.method)
            &&& done.transaction.reference == text::trimmed(request.reference)
            &&& done.transaction.notes == text::trimmed(request.notes)
            &&& done.transaction.occurred_at == now
            &&& done.order.order_id == order.order_id
            &&& done.order.order_no == order.order_no
            &&& done.order.customer_id == order.customer_id
            &&& done.order.customer_name == order.customer_name
            &&& done.order.items == order.items
            &&& done.order.total_amount_cents == order.total_amount_cents
            &&& done.order.created_at == order.created_at
            &&& done.order.due_at == order.due_at
            &&& done.order.deployment_type == order.deployment_type
            &&& done.order.license_id == order.license_id
            &&& done.order.notes == order.notes
            &&& done.order.provider_id == order.provider_id
            &&& order.received_amount_cents + request.amount_cents >= i64::MIN
                ==> done.order.received_amount_cents == order.received_amount_cents
                + request.amount_cents
            &&& if order.received_amount_cents + request.amount_cents == order.total_amount_cents {
                done.order.status == "paid"@ && done.order.paid_at == Some(now)
            } else {
                done.order.status == order.status && done.order.paid_at == order.paid_at
            }
        },
        payment_outcome(
            order_id,
            request,
            orders,
            rules,
            transaction_id,
            entry_ids,
            now,
        ) is Ok <==> {
            &&& request.amount_cents > 0
            &&& text::trimmed(request.method).len() > 0
            &&& orders[i].status != "cancelled"@
            &&& orders[i].status != "fulfilled"@
            &&& orders[i].received_amount_cents + request.amount_cents
                <= orders[i].total_amount_cents
        },
{
    assert(OrderRecord::key_of(orders[i]) == order_id);
    assert forall|j: int| 0 <= j < i implies OrderRecord::key_of(#[trigger] orders[j])
        != order_id by {
        assert(orders[j].order_id != order_id);
    }
    lookup::law_first_with_key_is_found::<OrderRecord>(orders, order_id, i);
}

proof fn lemma_commissions_name_the_order(
    order: OrderRecordView,
    provider_id: Seq<char>,
    count: nat,
    amount: int,
    rules: Seq<commissions::CommissionRuleView>,
    entry_ids: Seq<Seq<char>>,
    now: i64,
    i: int,
)
    requires
        0 <= i < commissions_on(
            order,
            provider_id,
            count,
            amount,
            rules,
            entry_ids,
            now,
        ).len(),
    ensures
        ({
            let entry = commissions_on(order, provider_id, count, amount, rules, entry_ids, now)[i];
            &&& entry.provider_id == provider_id
            &&& entry.order_id == order.order_id
            &&& entry.status == "pending_settlement"@
            &&& entry.created_at == now
        }),
    decreases count,
{
    if count > 0 {
        let at = count - 1;
        let before = commissions_on(
            order,
            provider_id,
            at as nat,
            amount,
            rules,
            entry_ids,
            now,
        );
        if i < before.len() {
            lemma_commissions_name_the_order(
                order,
                provider_id,
                at as nat,
                amount,
                rules,
                entry_ids,
                now,
                i,
            );
        }
    }
}

/// Every commission that a payment leads to is one of the provider of the paid
/// order, on that order, and waits to be settled. A payment for an order without
/// a provider leads to none.
pub proof fn law_commissions_name_the_provider_of_the_order(
    order_id: Seq<char>,
    request: RecordPaymentRequestView,
    orders: Seq<OrderRecordView>,
    rules: Seq<commissions::CommissionRuleView>,
    transaction_id: Seq<char>,
    entry_ids: Seq<Seq<char>>,
    now: i64,
)
    ensures
        payment_outcome(
            order_id,
            request,
            orders,
            rules,
            transaction_id,
            entry_ids,
            now,
        ) matches Ok(done) ==> {
            &&& forall|i: int|
                0 <= i < done.commissions.len() ==> {
                    let entry = #[trigger] done.commissions[i];
                    &&& Some(entry.provider_id) == done.order.provider_id
                    &&& entry.order_id == done.order.order_id
                    &&& entry.order_id == order_id
                    &&& entry.status == "pending_settlement"@
                    &&& entry.created_at == now
                }
            &&& done.order.provider_id is None ==> done.commissions.len() == 0
            &&& exists|k: int|
                0 <= k < orders.len() && (#[trigger] orders[k]).order_id == order_id
                    && orders[k].provider_id == done.order.provider_id
        },
{
    lookup::lemma_found::<OrderRecord>(orders, order_id);
    match payment_outcome(order_id, request, orders, rules, transaction_id, entry_ids, now) {
        Ok(done) => {
            let order = order_with(orders, order_id)->Some_0;
            let k = orders.index_of(order);
            assert(orders[k] == order);
            match order.provider_id {
                Some(provider_id) => {
                    assert forall|i: int| 0 <= i < done.commissions.len() implies {
                        let entry = #[trigger] done.commissions[i];
                        &&& Some(entry.provider_id) == done.order.provider_id
                        &&& entry.order_id == done.order.order_id
                        &&& entry.order_id == order_id
                        &&& entry.status == "pending_settlement"@
                        &&& entry.created_at == now
                    } by {
                        lemma_commissions_name_the_order(
                            order,
                            provider_id,
                            order.items.len(),
                            request.amount_cents as int,
                            rules,
                            entry_ids,
                            now,
                            i,
                        );
                    }
                },
                None => {},
            }
        },
        Err(_) => {},
    }
}

proof fn lemma_pending_grows(
    ledger: Seq<commissions::CommissionEntryView>,
    added: Seq<commissions::CommissionEntryView>,
    provider_id: Seq<char>,
    whose: Seq<char>,
)
    requires
        forall|i: int|
            0 <= i < added.len() ==> (#[trigger] added[i]).provider_id == provider_id
                && added[i].status == "pending_settlement"@,
    ensures
        commissions::pending_sum(ledger + added, whose) == commissions::pending_sum(ledger, whose)
            + (if whose == provider_id {
            commissions_sum(added)
        } else {
            0
        }),
    decreases added.len(),
{
    if added.len() == 0 {
        assert(ledger + added =~= ledger);
    } else {
        let init = added.drop_last();
        assert forall|i: int| 0 <= i < init.len() implies (#[trigger] init[i]).provider_id
            == provider_id && init[i].status == "pending_settlement"@ by {
            assert(init[i] == added[i]);
        }
        lemma_pending_grows(ledger, init, provider_id, whose);
        let all = ledger + added;
        assert(all.drop_last() =~= ledger + init);
        assert(all.last() == added[added.len() - 1]);
    }
}

/// What waits to be settled with the provider of an order grows with a payment
/// by the commissions on it, and what waits to be settled with anyone else stays
/// what it was.
pub proof fn law_payment_is_owed_to_the_provider_of_the_order(
    order_id: Seq<char>,
    request: RecordPaymentRequestView,
    orders: Seq<OrderRecordView>,
    rules: Seq<commissions::CommissionRuleView>,
    transaction_id: Seq<char>,
    entry_ids: Seq<Seq<char>>,
    now: i64,
    ledger: Seq<commissions::CommissionEntryView>,
    whose: Seq<char>,
)
    ensures
        payment_outcome(
            order_id,
            request,
            orders,
            rules,
            transaction_id,
            entry_ids,
            now,
        ) matches Ok(done) ==> commissions::pending_sum(ledger + done.commissions, whose)
            == commissions::pending_sum(ledger, whose) + (if done.order.provider_id == Some(whose) {
            commissions_sum(done.commissions)
        } else {
            0
        }),
{
    law_commissions_name_the_provider_of_the_order(
        order_id,
        request,
        orders,
        rules,
        transaction_id,
        entry_ids,
        now,
    );
    match payment_outcome(order_id, request, orders, rules, transaction_id, entry_ids, now) {
        Ok(done) => {
            match done.order.provider_id {
                Some(provider_id) => {
                    lemma_pending_grows(ledger, done.commissions, provider_id, whose);
                },
                None => {
                    assert(ledger + done.commissions =~= ledger);
                },
            }
        },
        Err(_) => {},
    }
}

/// Whether an entry is the commission on what of a payment falls to an item:
/// under the type of product that the kind of the item stands for, at the rate
/// of a rule for that type that is active and none took effect after, on the
/// part of the payment that the item has in the price of the order, both
/// rounded down to whole cents.
pub open spec fn is_commission_on(
    entry: commissions::CommissionEntryView,
    item: OrderLineItemView,
    amount: int,
    total: int,
    rules: Seq<commissions::CommissionRuleView>,
    now: i64,
) -> bool {
    let price = item.unit_price_cents * item.quantity;
    &&& item.kind == "platform"@ ==> entry.product_type == "低代码平台"@
    &&& item.kind == "ai_employee"@ ==> entry.product_type == "AI员工"@
    &&& item.kind == "module"@ ==> entry.product_type == "通信"@
    &&& item.kind == "service"@ ==> entry.product_type == "服务"@
    &&& is_rate_in_force(entry.rate_basis_points, entry.product_type, rules, now)
    &&& entry.received_amount_cents * total <= price * amount < (entry.received_amount_cents + 1)
        * total
    &&& entry.commission_amount_cents * 10_000 <= entry.received_amount_cents
        * entry.rate_basis_points < (entry.commission_amount_cents + 1) * 10_000
}

/// Whether entries are the commissions on the first items of an order: each on
/// one of them, and one on each that a rule is in force for.
pub open spec fn are_commissions_on(
    entries: Seq<commissions::CommissionEntryView>,
    items: Seq<OrderLineItemView>,
    count: int,
    entry_ids: Seq<Seq<char>>,
    amount: int,
    total: int,
    rules: Seq<commissions::CommissionRuleView>,
    now: i64,
) -> bool {
    &&& forall|i: int|
        0 <= i < entries.len() ==> exists|k: int|
            {
                &&& 0 <= k < count
                &&& (#[trigger] entries[i]).entry_id == entry_ids[k]
                &&& is_commission_on(entries[i], #[trigger] items[k], amount, total, rules, now)
            }
    &&& forall|k: int|
        0 <= k < count && earns_commission((#[trigger] items[k]).kind, rules, now)
            ==> exists|i: int|
            {
                &&& 0 <= i < entries.len()
                &&& (#[trigger] entries[i]).entry_id == entry_ids[k]
                &&& is_commission_on(entries[i], items[k], amount, total, rules, now)
            }
}

/// Whether a rate is that of a rule for a type of product that is active and in
/// effect, with no such rule that took effect later.
pub open spec fn is_rate_in_force(
    rate: i64,
    product_type: Seq<char>,
    rules: Seq<commissions::CommissionRuleView>,
    now: i64,
) -> bool {
    exists|r: int|
        {
            &&& 0 <= r < rules.len()
            &&& (#[trigger] rules[r]).rate_basis_points == rate
            &&& rules[r].product_type == product_type
            &&& rules[r].status == "active"@
            &&& rules[r].effective_at <= now
            &&& forall|s: int|
                0 <= s < rules.len() && (#[trigger] rules[s]).product_type == product_type
                    && rules[s].status == "active"@ && rules[s].effective_at <= now
                    ==> rules[s].effective_at <= rules[r].effective_at
        }
}

/// Whether a rule is active and in effect for the type of product that a kind of
/// item stands for.
pub open spec fn earns_commission(
    kind: Seq<char>,
    rules: Seq<commissions::CommissionRuleView>,
    now: i64,
) -> bool {
    exists|r: int|
        {
            &&& 0 <= r < rules.len()
            &&& (#[trigger] rules[r]).status == "active"@
            &&& rules[r].effective_at <= now
            &&& {
                ||| kind == "platform"@ && rules[r].product_type == "低代码平台"@
                ||| kind == "ai_employee"@ && rules[r].product_type == "AI员工"@
                ||| kind == "module"@ && rules[r].product_type == "通信"@
                ||| kind == "service"@ && rules[r].product_type == "服务"@
            }
        }
}

proof fn lemma_kinds_differ()
    ensures
        "platform"@ != "ai_employee"@,
        "platform"@ != "module"@,
        "platform"@ != "service"@,
        "ai_employee"@ != "module"@,
        "ai_employee"@ != "service"@,
        "module"@ != "service"@,
{
    reveal_strlit("platform");
    reveal_strlit("ai_employee");
    reveal_strlit("module");
    reveal_strlit("service");
    assert("platform"@.len() == 8);
    assert("ai_employee"@.len() == 11);
    assert("module"@.len() == 6);
    assert("service"@.len() == 7);
}

proof fn lemma_item_rate_is_in_force(
    item: OrderLineItemView,
    rules: Seq<commissions::CommissionRuleView>,
    now: i64,
)
    requires
        is_item_kind(item.kind),
    ensures
        item_rate(item, rules, now) is Some <==> earns_commission(item.kind, rules, now),
        item_rate(item, rules, now) matches Some(rate) ==> is_rate_in_force(
            rate,
            commissions::product_type_of(item.kind),
            rules,
            now,
        ),
{
    lemma_kinds_differ();
    let kind = commissions::product_type_of(item.kind);
    commissions::law_rule_is_latest_in_force(rules, kind, now as int);
    match commissions::rule_for(rules, kind, now as int) {
        Some(rule) => {
            let r = rules.index_of(rule);
            assert(rules[r] == rule);
            assert forall|s: int|
                0 <= s < rules.len() && (#[trigger] rules[s]).product_type == kind
                    && rules[s].status == "active"@ && rules[s].effective_at
                    <= now implies rules[s].effective_at <= rules[r].effective_at by {
                assert(commissions::in_force(rules[s], kind, now as int));
            }
        },
        None => {
            assert forall|r: int|
                0 <= r < rules.len() && (#[trigger] rules[r]).status == "active"@
                    && rules[r].effective_at <= now implies rules[r].product_type != kind by {
                assert(!commissions::in_force(rules[r], kind, now as int));
            }
        },
    }
}

proof fn lemma_entry_is_commission(
    order: OrderRecordView,
    provider_id: Seq<char>,
    item: OrderLineItemView,
    amount: int,
    rate: i64,
    entry_id: Seq<char>,
    rules: Seq<commissions::CommissionRuleView>,
    now: i64,
)
    requires
        is_item_kind(item.kind),
        item.unit_price_cents >= 0,
        order.total_amount_cents > 0,
        0 < amount <= i64::MAX,
        0 <= rate,
        item_rate(item, rules, now) == Some(rate),
        item_counts(item, amount, order.total_amount_cents as int, rate as int),
    ensures
        is_commission_on(
            entry_for(order, provider_id, item, amount, rate, entry_id, now),
            item,
            amount,
            order.total_amount_cents as int,
            rules,
            now,
        ),
{
    lemma_kinds_differ();
    lemma_item_rate_is_in_force(item, rules, now);
    lemma_amount_of(item);
    let total = order.total_amount_cents as int;
    let product = amount_of(item) * amount;
    assert(product >= 0) by (nonlinear_arith)
        requires
            product == amount_of(item) * amount,
            amount_of(item) >= 0,
            amount > 0,
    ;
    let share = product / total;
    assert(quotient(product, total) == share);
    assert(share >= 0 && share * total <= product < (share + 1) * total) by (nonlinear_arith)
        requires
            product >= 0,
            total > 0,
            share == product / total,
    ;
    let scaled = share * rate;
    assert(scaled >= 0) by (nonlinear_arith)
        requires
            scaled == share * rate,
            share >= 0,
            rate >= 0,
    ;
    assert(quotient(scaled, 10_000) == scaled / 10_000);
}

proof fn lemma_commissions_by_item(
    order: OrderRecordView,
    provider_id: Seq<char>,
    count: nat,
    amount: int,
    rules: Seq<commissions::CommissionRuleView>,
    entry_ids: Seq<Seq<char>>,
    now: i64,
)
    requires
        count <= order.items.len(),
        order.total_amount_cents > 0,
        0 < amount <= i64::MAX,
        forall|k: int|
            0 <= k < order.items.len() ==> {
                let item = #[trigger] order.items[k];
                &&& is_item_kind(item.kind)
                &&& item.unit_price_cents >= 0
                &&& item_rate(item, rules, now) matches Some(rate) ==> 0 <= rate && item_counts(
                    item,
                    amount,
                    order.total_amount_cents as int,
                    rate as int,
                )
            },
    ensures
        are_commissions_on(
            commissions_on(order, provider_id, count, amount, rules, entry_ids, now),
            order.items,
            count as int,
            entry_ids,
            amount,
            order.total_amount_cents as int,
            rules,
            now,
        ),
    decreases count,
{
    if count > 0 {
        let at = count - 1;
        let total = order.total_amount_cents as int;
        lemma_commissions_by_item(order, provider_id, at as nat, amount, rules, entry_ids, now);
        let before = commissions_on(
            order,
            provider_id,
            at as nat,
            amount,
            rules,
            entry_ids,
            now,
        );
        let entries = commissions_on(order, provider_id, count, amount, rules, entry_ids, now);
        let item = order.items[at];
        lemma_item_rate_is_in_force(item, rules, now);
        match item_rate(item, rules, now) {
            Some(rate) => {
                lemma_entry_is_commission(
                    order,
                    provider_id,
                    item,
                    amount,
                    rate,
                    entry_ids[at],
                    rules,
                    now,
                );
                assert(entries[before.len() as int].entry_id == entry_ids[at]);
            },
            None => {},
        }
        assert forall|i: int| 0 <= i < entries.len() implies exists|k: int|
            {
                &&& 0 <= k < count
                &&& (#[trigger] entries[i]).entry_id == entry_ids[k]
                &&& is_commission_on(
                    entries[i],
                    #[trigger] order.items[k],
                    amount,
                    total,
                    rules,
                    now,
                )
            } by {
            if i < before.len() {
                assert(entries[i] == before[i]);
            } else {
                assert(is_commission_on(entries[i], order.items[at], amount, total, rules, now));
            }
        }
        assert forall|k: int|
            0 <= k < count && earns_commission(
                (#[trigger] order.items[k]).kind,
                rules,
                now,
            ) implies exists|i: int|
            {
                &&& 0 <= i < entries.len()
                &&& (#[trigger] entries[i]).entry_id == entry_ids[k]
                &&& is_commission_on(entries[i], order.items[k], amount, total, rules, now)
            } by {
            if k < at {
                let i = choose|i: int|
                    {
                        &&& 0 <= i < before.len()
                        &&& (#[trigger] before[i]).entry_id == entry_ids[k]
                        &&& is_commission_on(before[i], order.items[k], amount, total, rules, now)
                    };
                assert(entries[i] == before[i]);
            }
        }
    }
}

/// On a payment for an order of a provider there is a commission on each item
/// that a rule is in force for, and there is no other: at the rate of that rule,
/// on the part of the payment that falls to the item by its price.
pub proof fn law_commissions_are_on_the_items(
    order_id: Seq<char>,
    request: RecordPaymentRequestView,
    orders: Seq<OrderRecordView>,
    rules: Seq<commissions::CommissionRuleView>,
    transaction_id: Seq<char>,
    entry_ids: Seq<Seq<char>>,
    now: i64,
)
    requires
        payment_counts(order_id, request, orders, rules, now),
        order_with(orders, order_id) matches Some(order) ==> valid_order(order) && all_sound(
            order.items,
        ),
        forall|i: int|
            0 <= i < rules.len() ==> (#[trigger] rules[i]).rate_basis_points >= 0,
    ensures
        payment_outcome(
            order_id,
            request,
            orders,
            rules,
            transaction_id,
            entry_ids,
            now,
        ) matches Ok(done) ==> (done.order.provider_id is Some
            ==> are_commissions_on(
            done.commissions,
            done.order.items,
            done.order.items.len() as int,
            entry_ids,
            request.amount_cents as int,
            done.order.total_amount_cents as int,
            rules,
            now,
        )),
{
    match payment_outcome(order_id, request, orders, rules, transaction_id, entry_ids, now) {
        Ok(done) => {
            let order = order_with(orders, order_id)->Some_0;
            match order.provider_id {
                Some(provider_id) => {
                    assert forall|k: int| 0 <= k < order.items.len() implies {
                        let item = #[trigger] order.items[k];
                        &&& is_item_kind(item.kind)
                        &&& item.unit_price_cents >= 0
                        &&& item_rate(item, rules, now) matches Some(rate) ==> 0 <= rate
                            && item_counts(
                            item,
                            request.amount_cents as int,
                            order.total_amount_cents as int,
                            rate as int,
                        )
                    } by {
                        let item = order.items[k];
                        assert(is_sound(item));
                        let kind = commissions::product_type_of(item.kind);
                        commissions::law_rule_is_latest_in_force(rules, kind, now as int);
                        match commissions::rule_for(rules, kind, now as int) {
                            Some(rule) => {
                                let r = rules.index_of(rule);
                                assert(rules[r].rate_basis_points >= 0);
                            },
                            None => {},
                        }
                    }
                    lemma_commissions_by_item(
                        order,
                        provider_id,
                        order.items.len(),
                        request.amount_cents as int,
                        rules,
                        entry_ids,
                        now,
                    );
                },
                None => {},
            }
        },
        Err(_) => {},
    }
}

/// Whether entries have different identifiers, all of them among some.
spec fn have_own_ids(
    entries: Seq<commissions::CommissionEntryView>,
    ids: Seq<Seq<char>>,
) -> bool {
    &&& forall|i: int| 0 <= i < entries.len() ==> ids.contains((#[trigger] entries[i]).entry_id)
    &&& forall|i: int, j: int|
        0 <= i < j < entries.len() ==> (#[trigger] entries[i]).entry_id != (
        #[trigger] entries[j]).entry_id
}

proof fn lemma_one_commission_by_item(
    order: OrderRecordView,
    provider_id: Seq<char>,
    count: nat,
    amount: int,
    rules: Seq<commissions::CommissionRuleView>,
    entry_ids: Seq<Seq<char>>,
    now: i64,
)
    requires
        count <= entry_ids.len(),
        entry_ids.no_duplicates(),
    ensures
        have_own_ids(
            commissions_on(order, provider_id, count, amount, rules, entry_ids, now),
            entry_ids.take(count as int),
        ),
    decreases count,
{
    if count > 0 {
        let at = count - 1;
        lemma_one_commission_by_item(
            order,
            provider_id,
            at as nat,
            amount,
            rules,
            entry_ids,
            now,
        );
        let before = commissions_on(
            order,
            provider_id,
            at as nat,
            amount,
            rules,
            entry_ids,
            now,
        );
        let entries = commissions_on(order, provider_id, count, amount, rules, entry_ids, now);
        let known = entry_ids.take(at);
        let ids = entry_ids.take(count as int);
        assert(ids[at] == entry_ids[at]);
        assert forall|i: int| 0 <= i < entries.len() implies ids.contains(
            (#[trigger] entries[i]).entry_id,
        ) by {
            if i < before.len() {
                assert(entries[i] == before[i]);
                let k = known.index_of(before[i].entry_id);
                assert(ids[k] == known[k]);
            }
        }
        assert forall|i: int, j: int| 0 <= i < j < entries.len() implies (
        #[trigger] entries[i]).entry_id != (#[trigger] entries[j]).entry_id by {
            assert(entries[i] == before[i]);
            if j < before.len() {
                assert(entries[j] == before[j]);
            } else {
                assert(entries[j].entry_id == entry_ids[at]);
                assert(known.contains(before[i].entry_id));
                let k = known.index_of(before[i].entry_id);
                assert(entry_ids[k] == known[k]);
            }
        }
    }
}

/// No item of a paid order earns two commissions on one payment: the commissions
/// have identifiers of their own where the identifiers for the items differ.
pub proof fn law_item_earns_one_commission(
    order_id: Seq<char>,
    request: RecordPaymentRequestView,
    orders: Seq<OrderRecordView>,
    rules: Seq<commissions::CommissionRuleView>,
    transaction_id: Seq<char>,
    entry_ids: Seq<Seq<char>>,
    now: i64,
)
    requires
        entry_ids.no_duplicates(),
        order_with(orders, order_id) matches Some(order) ==> order.items.len() <= entry_ids.len(),
    ensures
        payment_outcome(
            order_id,
            request,
            orders,
            rules,
            transaction_id,
            entry_ids,
            now,
        ) matches Ok(done) ==> forall|i: int, j: int|
            0 <= i < j < done.commissions.len() ==> (#[trigger] done.commissions[i]).entry_id != (
            #[trigger] done.commissions[j]).entry_id,
{
    match payment_outcome(order_id, request, orders, rules, transaction_id, entry_ids, now) {
        Ok(done) => {
            let order = order_with(orders, order_id)->Some_0;
            match order.provider_id {
                Some(provider_id) => {
                    lemma_one_commission_by_item(
                        order,
                        provider_id,
                        order.items.len(),
                        request.amount_cents as int,
                        rules,
                        entry_ids,
                        now,
                    );
                },
                None => {},
            }
        },
        Err(_) => {},
    }
}

/// An account of a service provider sees the orders of that provider, and an account
/// of the platform every order.
pub proof fn law_orders_are_seen_by_their_provider(
    user: crate::accounts::AuthenticatedUserView,
    order: OrderRecordView,
)
    ensures
        crate::accounts::sees::<OrderRecord>(user, order) <==> {
            ||| user.role != "provider_admin"@ && user.role != "provider_sales"@
            ||| order.provider_id == Some(user.organization_id)
        },
{
}

/// A request for a new order or to cancel one that is refused is a bad request. So
/// is a change or a payment that is refused, unless it is complete and the order is
/// not there.
pub proof fn law_refused_order_says_why(
    request: CreateOrderRequestView,
    payment: RecordPaymentRequestView,
    order_id: Seq<char>,
    customers: Seq<customers::CustomerRecordView>,
    providers: Seq<commissions::ProviderRecordView>,
    orders: Seq<OrderRecordView>,
    transactions: Seq<TransactionRecordView>,
    rules: Seq<commissions::CommissionRuleView>,
    entry_ids: Seq<Seq<char>>,
    order_no: Seq<char>,
    now: i64,
)
    ensures
        new_order_outcome(request, customers, providers, order_id, order_no, now) matches Err(e)
            ==> e.status == 400,
        cancelled_outcome(order_id, orders, transactions) matches Err(e) ==> e.status == 400,
        changed_order_outcome(request, order_id, customers, orders) matches Err(e) ==> {
            &&& e.status == 400 || e.status == 404
            &&& lookup::found::<OrderRecord>(orders, order_id) is Some ==> e.status == 400
            &&& lookup::found::<OrderRecord>(orders, order_id) is None && new_order_outcome(
                (CreateOrderRequestView { provider_id: None, ..request }),
                customers,
                providers,
                order_id,
                order_no,
                now,
            ) is Ok ==> e.status == 404
        },
        payment_outcome(
            order_id,
            payment,
            orders,
            rules,
            order_no,
            entry_ids,
            now,
        ) matches Err(e) ==> {
            &&& e.status == 400 || e.status == 404
            &&& e.status == 404 <==> payment.amount_cents > 0 && text::trimmed(
                payment.method,
            ).len() > 0 && lookup::found::<OrderRecord>(orders, order_id) is None
        },
{
}

/// A quotient is rounded towards zero: the divisor fits into the number that often
/// and not once more, signs aside. It is negative only where the signs differ, and
/// positive only where they do not.
pub proof fn law_quotient_rounds_towards_zero(a: int, b: int)
    requires
        b != 0,
    ensures
        ({
            let size = if a < 0 {
                -a
            } else {
                a
            };
            let part = if b < 0 {
                -b
            } else {
                b
            };
            let times = if quotient(a, b) < 0 {
                -quotient(a, b)
            } else {
                quotient(a, b)
            };
            times * part <= size < (times + 1) * part
        }),
        quotient(a, b) < 0 ==> (a < 0) != (b < 0),
        quotient(a, b) > 0 ==> (a < 0) == (b < 0),
{
    let size = magnitude(a);
    let part = magnitude(b);
    let times = size / part;
    assert(times >= 0 && times * part <= size < (times + 1) * part) by (nonlinear_arith)
        requires
            size >= 0,
            part > 0,
            times == size / part,
    ;
}

} // verus!
