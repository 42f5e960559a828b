//! Buying an AI employee in the market with the license that is in use: the
//! new order carries over all that the license entitles to.

use vstd::prelude::*;

use crate::catalog;
use crate::catalog::AiEmployeeProduct;
use crate::clock;
use crate::copying::Duplicate;
use crate::customers;
use crate::customers::CustomerRecord;
use crate::ids;
use crate::license_state;
use crate::licenses;
use crate::licenses::{LicenseClaims, LicenseRecord};
use crate::lookup;
use crate::orders;
use crate::orders::{OrderLineItem, OrderRecord, TransactionRecord};
use crate::rejection;
use crate::rejection::{refuse, Rejection};
use crate::text;

verus! {

/// The answer to a purchase.
pub struct MarketPurchaseResponse {
    pub order_id: String,
    pub order_no: String,
    pub license_id: String,
    pub status: String,
}

/// What a `MarketPurchaseResponse` holds.
#[verifier::ext_equal]
pub struct MarketPurchaseResponseView {
    pub order_id: Seq<char>,
    pub order_no: Seq<char>,
    pub license_id: Seq<char>,
    pub status: Seq<char>,
}

impl View for MarketPurchaseResponse {
    type V = MarketPurchaseResponseView;

    open spec fn view(&self) -> MarketPurchaseResponseView {
        MarketPurchaseResponseView {
            order_id: self.order_id@,
            order_no: self.order_no@,
            license_id: self.license_id@,
            status: self.status@,
        }
    }
}

/// A purchase: the order, which is paid, and the payment for it.
pub struct Purchase {
    pub order: OrderRecord,
    pub transaction: TransactionRecord,
}

/// What a `Purchase` holds.
#[verifier::ext_equal]
pub struct PurchaseView {
    pub order: orders::OrderRecordView,
    pub transaction: orders::TransactionRecordView,
}

impl View for Purchase {
    type V = PurchaseView;

    open spec fn view(&self) -> PurchaseView {
        PurchaseView {
            order: self.order@,
            transaction: self.transaction@,
        }
    }
}

/// The identifiers that a purchase is given.
pub struct PurchaseIds {
    pub order_id: String,
    pub order_no: String,
    pub transaction_id: String,
    pub reference: String,
}

/// What a `PurchaseIds` holds.
#[verifier::ext_equal]
pub struct PurchaseIdsView {
    pub order_id: Seq<char>,
    pub order_no: Seq<char>,
    pub transaction_id: Seq<char>,
    pub reference: Seq<char>,
}

impl View for PurchaseIds {
    type V = PurchaseIdsView;

    open spec fn view(&self) -> PurchaseIdsView {
        PurchaseIdsView {
            order_id: self.order_id@,
            order_no: self.order_no@,
            transaction_id: self.transaction_id@,
            reference: self.reference@,
        }
    }
}

/// How many days are left until a second: started days count as whole ones,
/// and there is always at least one.
pub open spec fn days_left(expires_at: int, now: int) -> int {
    let seconds = if expires_at - now > 1 {
        expires_at - now
    } else {
        1
    };
    let days = (seconds + clock::DAY_SECONDS - 1) / clock::DAY_SECONDS as int;
    if days <= u32::MAX {
        days
    } else {
        u32::MAX as int
    }
}

/// How many days are left until a second.
pub fn remaining_days(expires_at: i64, now: i64) -> (r: u32)
    ensures
        r == days_left(expires_at as int, now as int),
        r >= 1,
{
    let seconds: i64 = match expires_at.checked_sub(now) {
        Some(left) => if left > 1 {
            left
        } else {
            1
        },
        None => if expires_at > now {
            i64::MAX
        } else {
            1
        },
    };
    let days: i64 = (seconds - 1) / 86_400 + 1;
    if days <= u32::MAX as i64 {
        days as u32
    } else {
        u32::MAX
    }
}

/// The days that are left reach the second they are counted to, and one day
/// less does not, unless there are more than can be counted.
pub proof fn law_days_left_just_reach(expires_at: int, now: int)
    requires
        expires_at > now,
        expires_at - now <= u32::MAX * clock::DAY_SECONDS,
    ensures
        now + days_left(expires_at, now) * clock::DAY_SECONDS >= expires_at,
        now + (days_left(expires_at, now) - 1) * clock::DAY_SECONDS < expires_at,
{
}

/// An item that carries an entitlement over.
pub open spec fn carried(
    kind: Seq<char>,
    reference: Seq<char>,
    title: Seq<char>,
    expires_at: int,
    now: int,
) -> orders::OrderLineItemView {
    orders::OrderLineItemView {
        kind,
        reference_id: Some(reference),
        title,
        quantity: 1,
        unit_price_cents: 0,
        entitlement_days: Some(days_left(expires_at, now) as u32),
    }
}

/// An item that carries an entitlement over.
fn carry(kind: &str, reference: &str, title: String, expires_at: i64, now: i64) -> (r: OrderLineItem)
    ensures
        r@ == carried(kind@, reference@, title@, expires_at as int, now as int),
{
    OrderLineItem {
        kind: kind.to_string(),
        reference_id: Some(reference.to_string()),
        title,
        quantity: 1,
        unit_price_cents: 0,
        entitlement_days: Some(remaining_days(expires_at, now)),
    }
}

/// The title of a module of a license, or one for a module without a title.
pub open spec fn module_title_in(
    claims: licenses::LicenseClaimsView,
    module: Seq<char>,
    other: Seq<char>,
) -> Seq<char> {
    if claims.module_titles.contains_key(module) {
        claims.module_titles[module]
    } else {
        other
    }
}

/// Until when a module of a license lasts.
pub open spec fn module_expiry_in(claims: licenses::LicenseClaimsView, module: Seq<char>) -> i64 {
    if claims.module_expires_at.contains_key(module) {
        claims.module_expires_at[module]
    } else {
        claims.exp as i64
    }
}

/// The item that carries the platform of a license over.
pub open spec fn carried_platform(
    claims: licenses::LicenseClaimsView,
    now: int,
) -> orders::OrderLineItemView {
    carried(
        "platform"@,
        "platform"@,
        module_title_in(claims, "platform"@, "低代码平台"@),
        (claims.exp as i64) as int,
        now,
    )
}

/// The item that carries a module of a license over.
pub open spec fn carried_module(
    claims: licenses::LicenseClaimsView,
    module: Seq<char>,
    now: int,
) -> orders::OrderLineItemView {
    carried(
        "module"@,
        module,
        module_title_in(claims, module, license_state::title_of(module)),
        module_expiry_in(claims, module) as int,
        now,
    )
}

/// The item that carries an AI employee of a license over.
pub open spec fn carried_employee(
    employee: licenses::AiEmployeeEntitlementView,
    now: int,
) -> orders::OrderLineItemView {
    carried("ai_employee"@, employee.id, employee.title, employee.expires_at as int, now)
}

/// The items that carry the modules of a license over.
pub open spec fn carried_modules(
    claims: licenses::LicenseClaimsView,
    modules: Seq<Seq<char>>,
    now: int,
) -> Seq<orders::OrderLineItemView> {
    modules.filter(|m: Seq<char>| m != "platform"@).map_values(
        |m: Seq<char>| carried_module(claims, m, now),
    )
}

/// Whether an AI employee of a license is carried over: it is not the one that
/// is bought, and has not expired.
pub open spec fn is_carried(
    employee: licenses::AiEmployeeEntitlementView,
    bought: Seq<char>,
    now: int,
) -> bool {
    employee.id != bought && employee.expires_at > now
}

/// The items that carry the AI employees of a license over.
pub open spec fn carried_employees(
    employees: Seq<licenses::AiEmployeeEntitlementView>,
    bought: Seq<char>,
    now: int,
) -> Seq<orders::OrderLineItemView> {
    employees.filter(
        |e: licenses::AiEmployeeEntitlementView| is_carried(e, bought, now),
    ).map_values(|e: licenses::AiEmployeeEntitlementView| carried_employee(e, now))
}

/// The items that carry all that a license entitles to over to a new order,
/// but for the AI employee that is bought.
pub open spec fn carried_items(
    claims: licenses::LicenseClaimsView,
    bought: Seq<char>,
    now: int,
) -> Seq<orders::OrderLineItemView> {
    seq![carried_platform(claims, now)] + carried_modules(claims, claims.modules, now)
        + carried_employees(claims.ai_employees, bought, now)
}

/// The items that carry all that a license entitles to over to a new order,
/// but for the AI employee that is bought.
pub fn cumulative_entitlement_items(
    claims: &LicenseClaims,
    now: i64,
    purchased_product: &AiEmployeeProduct,
) -> (r: Vec<OrderLineItem>)
    ensures
        text::views(r@) == carried_items(claims@, purchased_product@.id, now as int),
{
    let mut items: Vec<OrderLineItem> = Vec::new();
    let platform_title = match claims.module_titles.get("platform") {
        Some(title) => title.clone(),
        None => "低代码平台".to_string(),
    };
    items.push(carry("platform", "platform", platform_title, claims.exp as i64, now));
    let ghost first = seq![carried_platform(claims@, now as int)];
    let ghost modules = text::views(claims.modules@);
    let ghost other = |m: Seq<char>| m != "platform"@;
    let ghost over = |m: Seq<char>| carried_module(claims@, m, now as int);
    let mut i: usize = 0;
    assert(modules.take(0).filter(other) =~= Seq::<Seq<char>>::empty());
    assert(text::views(items@) =~= first + carried_modules(claims@, modules.take(0), now as int));
    while i < claims.modules.len()
        invariant
            i <= claims.modules@.len(),
            modules == text::views(claims.modules@),
            other == (|m: Seq<char>| m != "platform"@),
            over == (|m: Seq<char>| carried_module(claims@, m, now as int)),
            text::views(items@) == first + carried_modules(
                claims@,
                modules.take(i as int),
                now as int,
            ),
        decreases claims.modules@.len() - i,
    {
        let module = &claims.modules[i];
        let ghost kept = modules.take(i as int).filter(other);
        proof {
            assert(modules.take(i + 1) =~= modules.take(i as int).push(module@));
            modules.take(i as int).lemma_filter_push(module@, other);
        }
        if !text::same(module.as_str(), "platform") {
            let title = match claims.module_titles.get(module.as_str()) {
                Some(title) => title.clone(),
                None => license_state::module_title(module.as_str()),
            };
            let expires_at = match claims.module_expires_at.get(module.as_str()) {
                Some(expires_at) => *expires_at,
                None => claims.exp as i64,
            };
            let item = carry("module", module.as_str(), title, expires_at, now);
            proof {
                assert(other(module@));
                text::lemma_views_push(items@, item);
                assert(kept.push(module@).map_values(over) =~= kept.map_values(over).push(
                    over(module@),
                ));
                assert(first + kept.map_values(over).push(over(module@)) =~= (first
                    + kept.map_values(over)).push(over(module@)));
            }
            items.push(item);
        } else {
            assert(!other(module@));
        }
        i = i + 1;
    }
    assert(modules.take(modules.len() as int) =~= modules);
    let ghost so_far = text::views(items@);
    let ghost employees = text::views(claims.ai_employees@);
    let ghost bought = purchased_product@.id;
    let ghost live = |e: licenses::AiEmployeeEntitlementView| is_carried(e, bought, now as int);
    let ghost hire = |e: licenses::AiEmployeeEntitlementView| carried_employee(e, now as int);
    let mut j: usize = 0;
    assert(employees.take(0).filter(live) =~= Seq::<licenses::AiEmployeeEntitlementView>::empty());
    assert(text::views(items@) =~= so_far + carried_employees(
        employees.take(0),
        bought,
        now as int,
    ));
    while j < claims.ai_employees.len()
        invariant
            j <= claims.ai_employees@.len(),
            employees == text::views(claims.ai_employees@),
            bought == purchased_product@.id,
            live == (|e: licenses::AiEmployeeEntitlementView| is_carried(e, bought, now as int)),
            hire == (|e: licenses::AiEmployeeEntitlementView| carried_employee(e, now as int)),
            text::views(items@) == so_far + carried_employees(
                employees.take(j as int),
                bought,
                now as int,
            ),
        decreases claims.ai_employees@.len() - j,
    {
        let employee = &claims.ai_employees[j];
        let ghost kept = employees.take(j as int).filter(live);
        proof {
            assert(employees.take(j + 1) =~= employees.take(j as int).push(employee@));
            employees.take(j as int).lemma_filter_push(employee@, live);
        }
        if !text::same(employee.id.as_str(), purchased_product.id.as_str()) && employee.expires_at
            > now {
            let item = carry(
                "ai_employee",
                employee.id.as_str(),
                employee.title.clone(),
                employee.expires_at,
                now,
            );
            proof {
                assert(live(employee@));
                text::lemma_views_push(items@, item);
                assert(kept.push(employee@).map_values(hire) =~= kept.map_values(hire).push(
                    hire(employee@),
                ));
                assert(so_far + kept.map_values(hire).push(hire(employee@)) =~= (so_far
                    + kept.map_values(hire)).push(hire(employee@)));
            }
            items.push(item);
        } else {
            assert(!live(employee@));
        }
        j = j + 1;
    }
    assert(employees.take(employees.len() as int) =~= employees);
    items
}

/// The license that a purchase builds on: the newest that the customer of the
/// presented license can use, or else the presented one.
pub open spec fn purchase_basis(
    employee_id: Seq<char>,
    claims: licenses::LicenseClaimsView,
    records: Seq<licenses::LicenseRecordView>,
    customers: Seq<customers::CustomerRecordView>,
    products: Seq<catalog::AiEmployeeProductView>,
    now: int,
) -> Result<licenses::LicenseRecordView, rejection::RejectionView> {
    match current_license(claims, records) {
        None => Err(rejection::refusal(rejection::UNAUTHORIZED, "平台许可证已失效"@)),
        Some(current) => match active_customer(customers, claims.subject) {
            None => Err(
                rejection::refusal(rejection::FORBIDDEN, "许可证主体对应的客户不存在或已停用"@),
            ),
            Some(_) => match catalog::product_on_sale(products, text::trimmed(employee_id)) {
                None => Err(rejection::refusal(rejection::NOT_FOUND, "AI 员工商品不存在或未上架"@)),
                Some(product) => if product.price_cents <= 0 {
                    Err(
                        rejection::refusal(rejection::BAD_REQUEST, "测试购买要求商品价格大于 0"@),
                    )
                } else {
                    match license_state::newest(
                        records,
                        license_state::usable(claims.subject, now),
                    ) {
                        Some(latest) => Ok(latest),
                        None => Ok(current),
                    }
                },
            },
        },
    }
}

/// The record of the presented license, where it can still be used.
pub open spec fn current_license(
    claims: licenses::LicenseClaimsView,
    records: Seq<licenses::LicenseRecordView>,
) -> Option<licenses::LicenseRecordView> {
    match lookup::found::<LicenseRecord>(records, claims.license_id) {
        Some(record) => if record.subject == claims.subject && !license_state::is_legacy(record)
            && license_state::is_live(record) {
            Some(record)
        } else {
            None
        },
        None => None,
    }
}

/// The customer with an identifier, where it is active.
pub open spec fn active_customer(
    customers: Seq<customers::CustomerRecordView>,
    id: Seq<char>,
) -> Option<customers::CustomerRecordView> {
    match customers::customer_with(customers, id) {
        Some(customer) => if customer.status == "active"@ {
            Some(customer)
        } else {
            None
        },
        None => None,
    }
}

/// The customer with an identifier, where it is active.
fn find_active_customer<'a>(customers: &'a Vec<CustomerRecord>, id: &str) -> (r: Option<
    &'a CustomerRecord,
>)
    ensures
        match r {
            Some(customer) => active_customer(text::views(customers@), id@) == Some(customer@),
            None => active_customer(text::views(customers@), id@) is None,
        },
{
    match lookup::find(customers, id) {
        Some(customer) => if text::same(customer.status.as_str(), "active") {
            Some(customer)
        } else {
            None
        },
        None => None,
    }
}

/// The license that a purchase builds on.
pub fn purchase_license(
    employee_id: &str,
    claims: &LicenseClaims,
    records: &Vec<LicenseRecord>,
    customers: &Vec<CustomerRecord>,
    products: &Vec<AiEmployeeProduct>,
    now: i64,
) -> (r: Result<LicenseRecord, Rejection>)
    ensures
        rejection::outcome(r) == purchase_basis(
            employee_id@,
            claims@,
            text::views(records@),
            text::views(customers@),
            text::views(products@),
            now as int,
        ),
{
    let current = match lookup::find(records, claims.license_id.as_str()) {
        Some(record) => record,
        None => {
            return Err(refuse(rejection::UNAUTHORIZED, "平台许可证已失效"));
        },
    };
    if !text::same(current.subject.as_str(), claims.subject.as_str()) || text::same(
        current.linkage_status.as_str(),
        "legacy_unlinked",
    ) || text::same(current.platform_status.as_str(), "destroyed") {
        return Err(refuse(rejection::UNAUTHORIZED, "平台许可证已失效"));
    }
    if find_active_customer(customers, claims.subject.as_str()).is_none() {
        return Err(refuse(rejection::FORBIDDEN, "许可证主体对应的客户不存在或已停用"));
    }
    let id = text::trim_owned(employee_id);
    let product = match catalog::find_on_sale(products, id.as_str()) {
        Some(product) => product,
        None => {
            return Err(refuse(rejection::NOT_FOUND, "AI 员工商品不存在或未上架"));
        },
    };
    if product.price_cents <= 0 {
        return Err(refuse(rejection::BAD_REQUEST, "测试购买要求商品价格大于 0"));
    }
    match license_state::newest_usable(records, claims.subject.as_str(), now) {
        Some(latest) => Ok(latest.duplicate()),
        None => Ok(current.duplicate()),
    }
}

/// How many days a purchase entitles to.
pub open spec fn purchase_days(billing_cycle: Seq<char>) -> Option<u32> {
    if billing_cycle == "month"@ {
        Some(30)
    } else if billing_cycle == "year"@ {
        Some(365)
    } else if billing_cycle == "one_time"@ {
        Some(3650)
    } else {
        None
    }
}

/// How many days a purchase entitles to.
fn days_bought(billing_cycle: &str) -> (r: Option<u32>)
    ensures
        r == purchase_days(billing_cycle@),
{
    if text::same(billing_cycle, "month") {
        Some(30)
    } else if text::same(billing_cycle, "year") {
        Some(365)
    } else if text::same(billing_cycle, "one_time") {
        Some(3650)
    } else {
        None
    }
}

/// Until when a license entitles to an AI employee, or a given second where it
/// does not.
pub open spec fn employee_expiry(
    employees: Seq<licenses::AiEmployeeEntitlementView>,
    id: Seq<char>,
    other: i64,
) -> i64 {
    match lookup::found::<licenses::AiEmployeeEntitlement>(employees, id) {
        Some(employee) => employee.expires_at,
        None => other,
    }
}

/// The days that a bought item entitles to: those bought and those left.
pub open spec fn days_granted(
    claims: licenses::LicenseClaimsView,
    product: catalog::AiEmployeeProductView,
    days: u32,
    now: i64,
) -> u32 {
    let left = days_left(employee_expiry(claims.ai_employees, product.id, now) as int, now as int);
    if left + days <= u32::MAX {
        (left + days) as u32
    } else {
        u32::MAX
    }
}

/// The item that is bought.
pub open spec fn bought_item(
    claims: licenses::LicenseClaimsView,
    product: catalog::AiEmployeeProductView,
    days: u32,
    now: i64,
) -> orders::OrderLineItemView {
    orders::OrderLineItemView {
        kind: "ai_employee"@,
        reference_id: Some(product.id),
        title: product.title,
        quantity: 1,
        unit_price_cents: product.price_cents,
        entitlement_days: Some(days_granted(claims, product, days, now)),
    }
}

/// A purchase for a customer that builds on a license.
pub open spec fn purchase_of(
    latest: licenses::LicenseClaimsView,
    customer: customers::CustomerRecordView,
    product: catalog::AiEmployeeProductView,
    days: u32,
    ids: PurchaseIdsView,
    now: i64,
) -> PurchaseView {
    PurchaseView {
        order: orders::OrderRecordView {
            order_id: ids.order_id,
            order_no: ids.order_no,
            customer_id: customer.customer_id,
            customer_name: customer.name,
            items: carried_items(latest, product.id, now as int).push(
                bought_item(latest, product, days, now),
            ),
            total_amount_cents: product.price_cents,
            received_amount_cents: product.price_cents,
            status: "paid"@,
            created_at: now,
            due_at: Some(now),
            deployment_type: latest.deployment_type,
            paid_at: Some(now),
            license_id: None,
            notes: "AI 员工市场测试支付："@ + product.title,
            provider_id: None,
        },
        transaction: orders::TransactionRecordView {
            transaction_id: ids.transaction_id,
            order_id: ids.order_id,
            order_no: ids.order_no,
            customer_id: customer.customer_id,
            customer_name: customer.name,
            amount_cents: product.price_cents,
            method: "test"@,
            reference: ids.reference,
            notes: "AI 员工市场模拟支付"@,
            occurred_at: now,
        },
    }
}

/// What a purchase comes to. `latest` is what the license that it builds on
/// states, where that was verified.
pub open spec fn purchase_outcome(
    employee_id: Seq<char>,
    claims: licenses::LicenseClaimsView,
    latest: Option<licenses::LicenseClaimsView>,
    records: Seq<licenses::LicenseRecordView>,
    customers: Seq<customers::CustomerRecordView>,
    products: Seq<catalog::AiEmployeeProductView>,
    ids: PurchaseIdsView,
    now: i64,
) -> Result<PurchaseView, rejection::RejectionView> {
    match purchase_basis(employee_id, claims, records, customers, products, now as int) {
        Err(e) => Err(e),
        Ok(_) => match latest {
            None => Err(
                rejection::refusal(rejection::CONFLICT, "客户最新许可证无效，无法生成累计权益"@),
            ),
            Some(basis) => {
                let product = catalog::product_on_sale(
                    products,
                    text::trimmed(employee_id),
                )->Some_0;
                let customer = active_customer(customers, claims.subject)->Some_0;
                match purchase_days(product.billing_cycle) {
                    None => Err(
                        rejection::refusal(rejection::BAD_REQUEST, "AI 员工计费周期无效"@),
                    ),
                    Some(days) => Ok(purchase_of(basis, customer, product, days, ids, now)),
                }
            },
        },
    }
}

/// Makes the order and the payment of a purchase with given identifiers.
/// `latest` is what the license that it builds on states, where that was
/// verified.
pub fn complete_purchase(
    employee_id: &str,
    claims: &LicenseClaims,
    latest: &Option<LicenseClaims>,
    records: &Vec<LicenseRecord>,
    customers: &Vec<CustomerRecord>,
    products: &Vec<AiEmployeeProduct>,
    ids: PurchaseIds,
    now: i64,
) -> (r: Result<Purchase, Rejection>)
    ensures
        rejection::outcome(r) == purchase_outcome(
            employee_id@,
            claims@,
            text::opt_view(*latest),
            text::views(records@),
            text::views(customers@),
            text::views(products@),
            ids@,
            now,
        ),
{
    match purchase_license(employee_id, claims, records, customers, products, now) {
        Ok(_) => {},
        Err(e) => {
            return Err(e);
        },
    }
    let basis = match latest {
        Some(basis) => basis,
        None => {
            return Err(refuse(rejection::CONFLICT, "客户最新许可证无效，无法生成累计权益"));
        },
    };
    let id = text::trim_owned(employee_id);
    let (product, customer) = match (
        catalog::find_on_sale(products, id.as_str()),
        find_active_customer(customers, claims.subject.as_str()),
    ) {
        (Some(product), Some(customer)) => (product, customer),
        _ => {
            return Err(refuse(rejection::NOT_FOUND, "AI 员工商品不存在或未上架"));
        },
    };
    let days = match days_bought(product.billing_cycle.as_str()) {
        Some(days) => days,
        None => {
            return Err(refuse(rejection::BAD_REQUEST, "AI 员工计费周期无效"));
        },
    };
    let mut items = cumulative_entitlement_items(basis, now, product);
    let until: i64 = match lookup::find(&basis.ai_employees, product.id.as_str()) {
        Some(employee) => employee.expires_at,
        None => now,
    };
    let item = OrderLineItem {
        kind: "ai_employee".to_string(),
        reference_id: Some(product.id.clone()),
        title: product.title.clone(),
        quantity: 1,
        unit_price_cents: product.price_cents,
        entitlement_days: Some(remaining_days(until, now).saturating_add(days)),
    };
    proof {
        assert(item@ =~= bought_item(basis@, product@, days, now));
        text::lemma_views_push(items@, item);
    }
    items.push(item);
    let transaction = TransactionRecord {
        transaction_id: ids.transaction_id,
        order_id: ids.order_id.clone(),
        order_no: ids.order_no.clone(),
        customer_id: customer.customer_id.clone(),
        customer_name: customer.name.clone(),
        amount_cents: product.price_cents,
        method: "test".to_string(),
        reference: ids.reference,
        notes: "AI 员工市场模拟支付".to_string(),
        occurred_at: now,
    };
    let order = OrderRecord {
        order_id: ids.order_id,
        order_no: ids.order_no,
        customer_id: customer.customer_id.clone(),
        customer_name: customer.name.clone(),
        items,
        total_amount_cents: product.price_cents,
        received_amount_cents: product.price_cents,
        status: "paid".to_string(),
        created_at: now,
        due_at: Some(now),
        deployment_type: basis.deployment_type.clone(),
        paid_at: Some(now),
        license_id: None,
        notes: text::join2("AI 员工市场测试支付：", product.title.as_str()),
        provider_id: None,
    };
    Ok(Purchase { order, transaction })
}

/// Whether texts can be the identifiers of a purchase made at a second.
pub open spec fn are_purchase_ids(ids: PurchaseIdsView, second: int) -> bool {
    &&& ids::is_record_id(ids.order_id, "ord_"@)
    &&& ids::is_order_number(ids.order_no, second)
    &&& ids::is_record_id(ids.transaction_id, "txn_"@)
    &&& ids::is_record_id(ids.reference, "TEST-"@)
}

/// Makes the order and the payment of a purchase with new identifiers. `now`
/// is when the purchase began, and `latest` is what the license that it builds
/// on states, where that was verified.
pub fn test_purchase_ai_employee(
    employee_id: &str,
    claims: &LicenseClaims,
    latest: &Option<LicenseClaims>,
    records: &Vec<LicenseRecord>,
    customers: &Vec<CustomerRecord>,
    products: &Vec<AiEmployeeProduct>,
    now: i64,
) -> (r: Result<Purchase, Rejection>)
    requires
        clock::in_calendar(now as int),
    ensures
        exists|ids: PurchaseIdsView| #[trigger]
            are_purchase_ids(ids, now as int) && rejection::outcome(r) == purchase_outcome(
                employee_id@,
                claims@,
                text::opt_view(*latest),
                text::views(records@),
                text::views(customers@),
                text::views(products@),
                ids,
                now,
            ),
{
    let ids = PurchaseIds {
        order_id: ids::generated_record_id("ord_"),
        order_no: ids::new_order_number(now),
        transaction_id: ids::generated_record_id("txn_"),
        reference: ids::generated_record_id("TEST-"),
    };
    assert(are_purchase_ids(ids@, now as int));
    complete_purchase(employee_id, claims, latest, records, customers, products, ids, now)
}

/// The answer to a purchase whose license was issued.
pub fn purchase_response(purchase: &Purchase, license_id: &str) -> (r: MarketPurchaseResponse)
    ensures
        r@ == (MarketPurchaseResponseView {
            order_id: purchase@.order.order_id,
            order_no: purchase@.order.order_no,
            license_id: license_id@,
            status: "fulfilled"@,
        }),
{
    MarketPurchaseResponse {
        order_id: purchase.order.order_id.clone(),
        order_no: purchase.order.order_no.clone(),
        license_id: license_id.to_string(),
        status: "fulfilled".to_string(),
    }
}

proof fn lemma_free_items(items: Seq<orders::OrderLineItemView>)
    requires
        forall|i: int| 0 <= i < items.len() ==> (#[trigger] items[i]).unit_price_cents == 0,
    ensures
        orders::amount_due(items) == 0,
    decreases items.len(),
{
    if items.len() > 0 {
        let init = items.drop_last();
        assert forall|i: int| 0 <= i < init.len() implies (#[trigger] init[i]).unit_price_cents
            == 0 by {
            assert(items[i].unit_price_cents == 0);
        }
        lemma_free_items(init);
        assert(items[items.len() - 1].unit_price_cents == 0);
        assert(orders::amount_of(items.last()) == 0) by (nonlinear_arith)
            requires
                items.last().unit_price_cents == 0,
                orders::amount_of(items.last()) == items.last().unit_price_cents
                    * items.last().quantity,
        ;
    }
}

/// The order of a purchase is a valid one, paid in full, for which a license
/// can be issued.
pub proof fn law_purchase_is_paid_in_full(
    employee_id: Seq<char>,
    claims: licenses::LicenseClaimsView,
    latest: Option<licenses::LicenseClaimsView>,
    records: Seq<licenses::LicenseRecordView>,
    customers: Seq<customers::CustomerRecordView>,
    products: Seq<catalog::AiEmployeeProductView>,
    ids: PurchaseIdsView,
    now: i64,
)
    ensures
        purchase_outcome(
            employee_id,
            claims,
            latest,
            records,
            customers,
            products,
            ids,
            now,
        ) matches Ok(purchase) ==> {
            &&& orders::valid_order(purchase.order)
            &&& purchase.order.received_amount_cents == purchase.order.total_amount_cents
            &&& purchase.transaction.amount_cents == purchase.order.total_amount_cents
            &&& license_state::awaits_license(purchase.order)
        },
{
    match purchase_outcome(
        employee_id,
        claims,
        latest,
        records,
        customers,
        products,
        ids,
        now,
    ) {
        Ok(purchase) => {
            let basis = latest->Some_0;
            let product = catalog::product_on_sale(products, text::trimmed(employee_id))->Some_0;
            let free = carried_items(basis, product.id, now as int);
            assert forall|i: int| 0 <= i < free.len() implies (#[trigger] free[i]).unit_price_cents
                == 0 by {
                let modules = carried_modules(basis, basis.modules, now as int);
                let employees = carried_employees(basis.ai_employees, product.id, now as int);
                if i == 0 {
                    assert(free[0] == carried_platform(basis, now as int));
                } else if i < 1 + modules.len() {
                    assert(free[i] == modules[i - 1]);
                } else {
                    assert(free[i] == employees[i - 1 - modules.len()]);
                }
            }
            lemma_free_items(free);
            let item = purchase.order.items.last();
            assert(purchase.order.items.drop_last() =~= free);
            assert(orders::amount_of(item) == product.price_cents) by (nonlinear_arith)
                requires
                    orders::amount_of(item) == item.unit_price_cents * item.quantity,
                    item.quantity == 1,
                    item.unit_price_cents == product.price_cents,
            ;
            assert forall|i: int| 0 <= i < purchase.order.items.len() implies (
            #[trigger] purchase.order.items[i]).unit_price_cents >= 0 by {
                if i < free.len() {
                    assert(free[i].unit_price_cents == 0);
                }
            }
        },
        Err(_) => {},
    }
}

/// A purchase loses nothing: the new order has an item for the platform, for
/// every other module, and for every AI employee of the license that has not
/// expired, each for at least as many days as are left; and the one that is
/// bought has the bought days on top.
pub proof fn law_purchase_carries_everything_over(
    latest: licenses::LicenseClaimsView,
    customer: customers::CustomerRecordView,
    product: catalog::AiEmployeeProductView,
    days: u32,
    ids: PurchaseIdsView,
    now: i64,
)
    ensures
        ({
            let items = purchase_of(latest, customer, product, days, ids, now).order.items;
            &&& carries_over(items, latest, product.id, now as int)
            &&& items.last() == bought_item(latest, product, days, now)
            &&& days_granted(latest, product, days, now) >= days
            &&& days_granted(latest, product, days, now) >= days_left(
                employee_expiry(latest.ai_employees, product.id, now) as int,
                now as int,
            )
        }),
{
    let items = purchase_of(latest, customer, product, days, ids, now).order.items;
    let modules = carried_modules(latest, latest.modules, now as int);
    let employees = carried_employees(latest.ai_employees, product.id, now as int);
    assert(items[0] == carried_platform(latest, now as int));
    let other = |m: Seq<char>| m != "platform"@;
    assert forall|m: Seq<char>| latest.modules.contains(m) && m != "platform"@ implies items.contains(
        #[trigger] carried_module(latest, m, now as int),
    ) by {
        let k = latest.modules.index_of(m);
        assert(other(latest.modules[k]));
        latest.modules.lemma_filter_contains(other, k);
        let f = latest.modules.filter(other);
        let j = f.index_of(m);
        assert(modules[j] == carried_module(latest, m, now as int));
        assert(items[1 + j] == modules[j]);
    }
    let live = |e: licenses::AiEmployeeEntitlementView| is_carried(e, product.id, now as int);
    assert forall|i: int|
        0 <= i < latest.ai_employees.len() && is_carried(
            #[trigger] latest.ai_employees[i],
            product.id,
            now as int,
        ) implies items.contains(carried_employee(latest.ai_employees[i], now as int)) by {
        assert(live(latest.ai_employees[i]));
        latest.ai_employees.lemma_filter_contains(live, i);
        let f = latest.ai_employees.filter(live);
        let j = f.index_of(latest.ai_employees[i]);
        assert(employees[j] == carried_employee(latest.ai_employees[i], now as int));
        assert(items[1 + modules.len() + j] == employees[j]);
    }
}

/// Whether a license lasts at least as long as another one, and so does every
/// module of it and every AI employee that is carried over.
pub open spec fn lasts_as_long(
    claims: licenses::LicenseClaimsView,
    latest: licenses::LicenseClaimsView,
    bought: Seq<char>,
    now: int,
) -> bool {
    &&& claims.exp >= latest.exp
    &&& forall|m: Seq<char>|
        latest.modules.contains(m) && m != "platform"@ && text::trimmed(m) == m
            ==> #[trigger] keeps_module(claims, latest, m)
    &&& forall|i: int|
        0 <= i < latest.ai_employees.len() && is_carried(
            #[trigger] latest.ai_employees[i],
            bought,
            now,
        ) && text::trimmed(latest.ai_employees[i].id) == latest.ai_employees[i].id ==> entitles_to(
            claims,
            latest.ai_employees[i].id,
            latest.ai_employees[i].expires_at as int,
        )
}

/// Whether a license entitles to a module for at least as long as another one.
pub open spec fn keeps_module(
    claims: licenses::LicenseClaimsView,
    latest: licenses::LicenseClaimsView,
    module: Seq<char>,
) -> bool {
    &&& claims.modules.contains(module)
    &&& claims.module_expires_at.contains_key(module)
    &&& claims.module_expires_at[module] >= module_expiry_in(latest, module)
}

/// Whether a license entitles to an AI employee until a second or longer.
pub open spec fn entitles_to(
    claims: licenses::LicenseClaimsView,
    id: Seq<char>,
    until: int,
) -> bool {
    exists|j: int|
        0 <= j < claims.ai_employees.len() && (#[trigger] claims.ai_employees[j]).id == id
            && claims.ai_employees[j].expires_at >= until
}

/// An item that carries an entitlement over keeps it in the license of its
/// order.
proof fn lemma_carried_is_kept(
    request: licenses::IssueLicenseRequestView,
    orders: Seq<orders::OrderRecordView>,
    products: Seq<catalog::AiEmployeeProductView>,
    skills: Seq<catalog::OperationSkillView>,
    license_id: Seq<char>,
    issued_at: i64,
    kind: Seq<char>,
    reference: Seq<char>,
    title: Seq<char>,
    until: i64,
    now: i64,
)
    requires
        licenses::issue_reaches(request, orders, issued_at as int),
        0 <= now <= issued_at,
        until - now <= u32::MAX * clock::DAY_SECONDS,
        text::trimmed(reference) == reference,
        kind == "platform"@ || kind == "module"@ || kind == "ai_employee"@,
        licenses::license_order(request, orders) matches Ok(order) && order.items.contains(
            carried(kind, reference, title, until as int, now as int),
        ),
        licenses::issue_outcome(
            request,
            orders,
            products,
            skills,
            license_id,
            issued_at,
            issued_at,
        ) is Ok,
    ensures
        ({
            let claims = licenses::issue_outcome(
                request,
                orders,
                products,
                skills,
                license_id,
                issued_at,
                issued_at,
            )->Ok_0;
            &&& kind == "platform"@ ==> claims.exp >= until
            &&& kind == "module"@ && until <= claims.exp ==> claims.modules.contains(reference)
                && claims.module_expires_at.contains_key(reference)
                && claims.module_expires_at[reference] >= until
            &&& kind == "ai_employee"@ && until <= claims.exp ==> entitles_to(
                claims,
                reference,
                until as int,
            )
        }),
{
    let order = licenses::license_order(request, orders)->Ok_0;
    let item = carried(kind, reference, title, until as int, now as int);
    let k = order.items.index_of(item);
    licenses::law_license_honors_every_item(
        request,
        orders,
        products,
        skills,
        license_id,
        issued_at,
        issued_at,
        k,
    );
    let claims = licenses::issue_outcome(
        request,
        orders,
        products,
        skills,
        license_id,
        issued_at,
        issued_at,
    )->Ok_0;
    let days = licenses::days_of(item)->Some_0;
    assert(licenses::reference_of(item) == reference);
    if until > now {
        law_days_left_just_reach(until as int, now as int);
    }
    assert(licenses::expiry_after(issued_at as int, days) >= until);
    if kind == "ai_employee"@ && until <= claims.exp {
        let j = choose|j: int|
            0 <= j < claims.ai_employees.len() && (#[trigger] claims.ai_employees[j]).id
                == reference && (claims.ai_employees[j].expires_at >= licenses::expiry_after(
                issued_at as int,
                days,
            ) || claims.ai_employees[j].expires_at == claims.exp);
        assert(claims.ai_employees[j].expires_at >= until);
    }
}

/// Whether an order has an item for all that a license entitles to, but for an
/// AI employee that is bought.
pub open spec fn carries_over(
    items: Seq<orders::OrderLineItemView>,
    latest: licenses::LicenseClaimsView,
    bought: Seq<char>,
    now: int,
) -> bool {
    &&& items.contains(carried_platform(latest, now))
    &&& forall|m: Seq<char>|
        latest.modules.contains(m) && m != "platform"@ ==> items.contains(
            #[trigger] carried_module(latest, m, now),
        )
    &&& forall|i: int|
        0 <= i < latest.ai_employees.len() && is_carried(
            #[trigger] latest.ai_employees[i],
            bought,
            now,
        ) ==> items.contains(carried_employee(latest.ai_employees[i], now))
}

/// Whether nothing that a license entitles to outlasts it, and the days it
/// has left can be counted.
pub open spec fn is_bounded(latest: licenses::LicenseClaimsView, now: int) -> bool {
    &&& latest.exp <= clock::LAST_SECOND
    &&& latest.exp - now <= u32::MAX * clock::DAY_SECONDS
    &&& forall|m: Seq<char>| #[trigger]
        latest.module_expires_at.contains_key(m) ==> latest.module_expires_at[m] <= latest.exp
    &&& forall|i: int|
        0 <= i < latest.ai_employees.len() ==> (#[trigger] latest.ai_employees[i]).expires_at
            <= latest.exp
}

/// The license of an order that carries over all that another license entitles
/// to lasts at least as long as that one, and so does every module and every
/// AI employee in it.
pub proof fn law_carried_license_shortens_nothing(
    latest: licenses::LicenseClaimsView,
    bought: Seq<char>,
    now: i64,
    request: licenses::IssueLicenseRequestView,
    orders: Seq<orders::OrderRecordView>,
    products: Seq<catalog::AiEmployeeProductView>,
    skills: Seq<catalog::OperationSkillView>,
    license_id: Seq<char>,
    issued_at: i64,
)
    requires
        licenses::issue_reaches(request, orders, issued_at as int),
        0 <= now <= issued_at,
        is_bounded(latest, now as int),
        licenses::license_order(request, orders) matches Ok(order) && carries_over(
            order.items,
            latest,
            bought,
            now as int,
        ),
        licenses::issue_outcome(
            request,
            orders,
            products,
            skills,
            license_id,
            issued_at,
            issued_at,
        ) is Ok,
    ensures
        lasts_as_long(
            licenses::issue_outcome(
                request,
                orders,
                products,
                skills,
                license_id,
                issued_at,
                issued_at,
            )->Ok_0,
            latest,
            bought,
            now as int,
        ),
{
    let claims = licenses::issue_outcome(
        request,
        orders,
        products,
        skills,
        license_id,
        issued_at,
        issued_at,
    )->Ok_0;
    let items = licenses::license_order(request, orders)->Ok_0.items;
    reveal_strlit("platform");
    text::lemma_trimmed_keeps("platform"@);
    lemma_carried_is_kept(
        request,
        orders,
        products,
        skills,
        license_id,
        issued_at,
        "platform"@,
        "platform"@,
        module_title_in(latest, "platform"@, "低代码平台"@),
        latest.exp as i64,
        now,
    );
    assert forall|m: Seq<char>|
        latest.modules.contains(m) && m != "platform"@ && text::trimmed(m)
            == m implies #[trigger] keeps_module(claims, latest, m) by {
        assert(items.contains(carried_module(latest, m, now as int)));
        lemma_carried_is_kept(
            request,
            orders,
            products,
            skills,
            license_id,
            issued_at,
            "module"@,
            m,
            module_title_in(latest, m, license_state::title_of(m)),
            module_expiry_in(latest, m),
            now,
        );
    }
    assert forall|i: int|
        0 <= i < latest.ai_employees.len() && is_carried(
            #[trigger] latest.ai_employees[i],
            bought,
            now as int,
        ) && text::trimmed(latest.ai_employees[i].id)
            == latest.ai_employees[i].id implies entitles_to(
        claims,
        latest.ai_employees[i].id,
        latest.ai_employees[i].expires_at as int,
    ) by {
        let e = latest.ai_employees[i];
        assert(items.contains(carried_employee(e, now as int)));
        lemma_carried_is_kept(
            request,
            orders,
            products,
            skills,
            license_id,
            issued_at,
            "ai_employee"@,
            e.id,
            e.title,
            e.expires_at,
            now,
        );
    }
}

/// Whether so many days are left until a second: they reach it and one day less
/// does not. One day is left of what has ended; more days than can be counted
/// are counted as the largest number.
pub open spec fn are_days_left(days: int, expires_at: int, now: int) -> bool {
    if expires_at <= now {
        days == 1
    } else if expires_at - now > 4_294_967_295 * 86_400 {
        days == 4_294_967_295
    } else {
        now + (days - 1) * 86_400 < expires_at <= now + days * 86_400
    }
}

proof fn lemma_days_are_left(expires_at: int, now: int)
    ensures
        are_days_left(days_left(expires_at, now), expires_at, now),
        1 <= days_left(expires_at, now) <= u32::MAX,
{
}

/// Whether days are so many more than others, as far as they can be counted.
pub open spec fn are_more_days(days: Option<u32>, left: int, bought: int) -> bool {
    days matches Some(n) && n == (if left + bought <= 4_294_967_295 {
        left + bought
    } else {
        4_294_967_295
    })
}

/// The last item of the order of a purchase is the AI employee that is bought,
/// once and at its price. It entitles to the days that the license has left of
/// that AI employee and 30 more where the AI employee is billed by the month, 365
/// more where it is billed by the year, and 3650 more where it is billed once; of
/// an AI employee that the license does not hold one day is left.
pub proof fn law_purchase_adds_the_days_of_the_billing_cycle(
    employee_id: Seq<char>,
    claims: licenses::LicenseClaimsView,
    latest: Option<licenses::LicenseClaimsView>,
    records: Seq<licenses::LicenseRecordView>,
    customers: Seq<customers::CustomerRecordView>,
    products: Seq<catalog::AiEmployeeProductView>,
    ids: PurchaseIdsView,
    now: i64,
)
    ensures
        purchase_outcome(
            employee_id,
            claims,
            latest,
            records,
            customers,
            products,
            ids,
            now,
        ) matches Ok(purchase) ==> {
            let item = purchase.order.items.last();
            &&& purchase.order.items.len() >= 2
            &&& item.kind == "ai_employee"@
            &&& item.reference_id == Some(text::trimmed(employee_id))
            &&& item.quantity == 1
            &&& exists|p: int|
                {
                    &&& 0 <= p < products.len()
                    &&& (#[trigger] products[p]).id == text::trimmed(employee_id)
                    &&& products[p].status == "active"@
                    &&& products[p].price_cents > 0
                    &&& item.title == products[p].title
                    &&& item.unit_price_cents == products[p].price_cents
                    &&& exists|left: int|
                        {
                            &&& #[trigger] is_left_of(
                                left,
                                latest->Some_0.ai_employees,
                                text::trimmed(employee_id),
                                now as int,
                            )
                            &&& products[p].billing_cycle == "month"@ ==> are_more_days(
                                item.entitlement_days,
                                left,
                                30,
                            )
                            &&& products[p].billing_cycle == "year"@ ==> are_more_days(
                                item.entitlement_days,
                                left,
                                365,
                            )
                            &&& products[p].billing_cycle == "one_time"@ ==> are_more_days(
                                item.entitlement_days,
                                left,
                                3650,
                            )
                            &&& products[p].billing_cycle == "month"@ || products[p].billing_cycle
                                == "year"@ || products[p].billing_cycle == "one_time"@
                        }
                }
        },
{
    reveal_strlit("month");
    reveal_strlit("year");
    reveal_strlit("one_time");
    assert("month"@.len() == 5);
    assert("year"@.len() == 4);
    assert("one_time"@.len() == 8);
    match purchase_outcome(
        employee_id,
        claims,
        latest,
        records,
        customers,
        products,
        ids,
        now,
    ) {
        Ok(purchase) => {
            let id = text::trimmed(employee_id);
            let basis = latest->Some_0;
            lookup::lemma_found::<AiEmployeeProduct>(products, id);
            let product = catalog::product_with(products, id)->Some_0;
            let p = products.index_of(product);
            assert(products[p] == product);
            let held = employee_expiry(basis.ai_employees, id, now);
            let left = days_left(held as int, now as int);
            lemma_days_are_left(held as int, now as int);
            lookup::lemma_found::<licenses::AiEmployeeEntitlement>(basis.ai_employees, id);
            match lookup::found::<licenses::AiEmployeeEntitlement>(basis.ai_employees, id) {
                Some(employee) => {
                    let i = basis.ai_employees.index_of(employee);
                    assert(basis.ai_employees[i] == employee);
                },
                None => {
                    assert forall|i: int| 0 <= i < basis.ai_employees.len() implies (
                    #[trigger] basis.ai_employees[i]).id != id by {
                        assert(<licenses::AiEmployeeEntitlement as lookup::Keyed>::key_of(basis.ai_employees[i])
                            != id);
                    }
                },
            }
            assert(is_left_of(left, basis.ai_employees, id, now as int));
            assert(purchase.order.items.last().entitlement_days == Some(
                days_granted(basis, product, purchase_days(product.billing_cycle)->Some_0, now),
            ));
        },
        Err(_) => {},
    }
}

/// Whether so many days are left of an AI employee of a license: until one of
/// the entitlements to it ends, or one day where there is none.
pub open spec fn is_left_of(
    days: int,
    employees: Seq<licenses::AiEmployeeEntitlementView>,
    id: Seq<char>,
    now: int,
) -> bool {
    ||| exists|i: int|
        0 <= i < employees.len() && (#[trigger] employees[i]).id == id && are_days_left(
            days,
            employees[i].expires_at as int,
            now,
        )
    ||| days == 1 && forall|i: int|
        0 <= i < employees.len() ==> (#[trigger] employees[i]).id != id
}

/// A purchase is made exactly where the license that is presented is one of its
/// customer that can still be used, the customer is active, the AI employee is on
/// sale at a price and by a known billing cycle, and the license that the purchase
/// builds on was verified.
pub proof fn law_purchase_is_made_when_it_is_allowed(
    employee_id: Seq<char>,
    claims: licenses::LicenseClaimsView,
    latest: Option<licenses::LicenseClaimsView>,
    records: Seq<licenses::LicenseRecordView>,
    customers: Seq<customers::CustomerRecordView>,
    products: Seq<catalog::AiEmployeeProductView>,
    ids: PurchaseIdsView,
    now: i64,
)
    ensures
        purchase_outcome(
            employee_id,
            claims,
            latest,
            records,
            customers,
            products,
            ids,
            now,
        ) is Ok <==> {
            &&& lookup::found::<LicenseRecord>(records, claims.license_id) matches Some(record) && {
                &&& record.subject == claims.subject
                &&& record.linkage_status != "legacy_unlinked"@
                &&& record.platform_status != "destroyed"@
            }
            &&& lookup::found::<CustomerRecord>(customers, claims.subject) matches Some(customer)
                && customer.status == "active"@
            &&& lookup::found::<AiEmployeeProduct>(
                products,
                text::trimmed(employee_id),
            ) matches Some(product) && {
                &&& product.status == "active"@
                &&& product.price_cents >= 1
                &&& product.billing_cycle == "month"@ || product.billing_cycle == "year"@
                    || product.billing_cycle == "one_time"@
            }
            &&& latest is Some
        },
{
}

/// The order of a purchase is the customer's, under the identifiers that were
/// given, of the deployment type of the license, and paid at once with the price
/// of the AI employee; no provider has a part in it. The payment is for that order
/// and that customer.
pub proof fn law_purchase_is_the_customers(
    employee_id: Seq<char>,
    claims: licenses::LicenseClaimsView,
    latest: Option<licenses::LicenseClaimsView>,
    records: Seq<licenses::LicenseRecordView>,
    customers: Seq<customers::CustomerRecordView>,
    products: Seq<catalog::AiEmployeeProductView>,
    ids: PurchaseIdsView,
    now: i64,
)
    ensures
        purchase_outcome(
            employee_id,
            claims,
            latest,
            records,
            customers,
            products,
            ids,
            now,
        ) matches Ok(purchase) ==> {
            let order = purchase.order;
            let transaction = purchase.transaction;
            let item = order.items.last();
            &&& order.order_id == ids.order_id
            &&& order.order_no == ids.order_no
            &&& order.customer_id == claims.subject
            &&& exists|c: int|
                0 <= c < customers.len() && (#[trigger] customers[c]).customer_id == claims.subject
                    && customers[c].name == order.customer_name && customers[c].status
                    == "active"@
            &&& order.total_amount_cents == item.unit_price_cents
            &&& order.received_amount_cents == item.unit_price_cents
            &&& order.status == "paid"@
            &&& order.created_at == now
            &&& order.paid_at == Some(now)
            &&& order.due_at == Some(now)
            &&& order.deployment_type == latest->Some_0.deployment_type
            &&& order.license_id is None
            &&& order.provider_id is None
            &&& order.notes == "AI 员工市场测试支付："@ + item.title
            &&& transaction.transaction_id == ids.transaction_id
            &&& transaction.order_id == ids.order_id
            &&& transaction.order_no == ids.order_no
            &&& transaction.customer_id == claims.subject
            &&& transaction.customer_name == order.customer_name
            &&& transaction.amount_cents == item.unit_price_cents
            &&& transaction.method == "test"@
            &&& transaction.reference == ids.reference
            &&& transaction.notes == "AI 员工市场模拟支付"@
            &&& transaction.occurred_at == now
        },
{
    lookup::lemma_found::<CustomerRecord>(customers, claims.subject);
    match customers::customer_with(customers, claims.subject) {
        Some(customer) => {
            let c = customers.index_of(customer);
            assert(customers[c] == customer);
        },
        None => {},
    }
}

/// Whether an item carries an entitlement over: free of charge, once, and for
/// the days that are left of it.
pub open spec fn carries(
    item: orders::OrderLineItemView,
    kind: Seq<char>,
    id: Seq<char>,
    title: Seq<char>,
    expires_at: int,
    now: int,
) -> bool {
    &&& item.kind == kind
    &&& item.reference_id == Some(id)
    &&& item.title == title
    &&& item.quantity == 1
    &&& item.unit_price_cents == 0
    &&& item.entitlement_days matches Some(days) && are_days_left(days as int, expires_at, now)
}

/// Whether an item carries a module of a license over: until its own expiry or,
/// where it has none, that of the license.
pub open spec fn carries_module(
    item: orders::OrderLineItemView,
    latest: licenses::LicenseClaimsView,
    module: Seq<char>,
    now: int,
) -> bool {
    &&& module != "platform"@
    &&& carries(
        item,
        "module"@,
        module,
        item.title,
        if latest.module_expires_at.contains_key(module) {
            latest.module_expires_at[module] as int
        } else {
            latest.exp as int
        },
        now,
    )
    &&& if latest.module_titles.contains_key(module) {
        item.title == latest.module_titles[module]
    } else if module == "communication"@ {
        item.title == "通讯模型"@
    } else {
        item.title == module
    }
}

proof fn lemma_carried_carries(
    kind: Seq<char>,
    reference: Seq<char>,
    title: Seq<char>,
    expires_at: int,
    now: int,
)
    ensures
        carries(
            carried(kind, reference, title, expires_at, now),
            kind,
            reference,
            title,
            expires_at,
            now,
        ),
{
    lemma_days_are_left(expires_at, now);
}

/// The other items of the order of a purchase carry over what the license
/// entitles to, and nothing else: the first one the platform, and each of the
/// others a module of the license or an AI employee of it that has not expired
/// and is not the one that is bought.
pub proof fn law_purchase_carries_nothing_else_over(
    employee_id: Seq<char>,
    claims: licenses::LicenseClaimsView,
    latest: licenses::LicenseClaimsView,
    records: Seq<licenses::LicenseRecordView>,
    customers: Seq<customers::CustomerRecordView>,
    products: Seq<catalog::AiEmployeeProductView>,
    ids: PurchaseIdsView,
    now: i64,
    i: int,
)
    requires
        latest.exp <= i64::MAX,
    ensures
        purchase_outcome(
            employee_id,
            claims,
            Some(latest),
            records,
            customers,
            products,
            ids,
            now,
        ) matches Ok(purchase) ==> (0 <= i < purchase.order.items.len() - 1 ==> {
            let item = purchase.order.items[i];
            if i == 0 {
                carries(
                    item,
                    "platform"@,
                    "platform"@,
                    if latest.module_titles.contains_key("platform"@) {
                        latest.module_titles["platform"@]
                    } else {
                        "低代码平台"@
                    },
                    latest.exp as int,
                    now as int,
                )
            } else {
                ||| exists|m: Seq<char>| #[trigger]
                    latest.modules.contains(m) && carries_module(item, latest, m, now as int)
                ||| exists|k: int|
                    {
                        &&& 0 <= k < latest.ai_employees.len()
                        &&& (#[trigger] latest.ai_employees[k]).id != text::trimmed(employee_id)
                        &&& latest.ai_employees[k].expires_at > now
                        &&& carries(
                            item,
                            "ai_employee"@,
                            latest.ai_employees[k].id,
                            latest.ai_employees[k].title,
                            latest.ai_employees[k].expires_at as int,
                            now as int,
                        )
                    }
            }
        }),
{
    match purchase_outcome(
        employee_id,
        claims,
        Some(latest),
        records,
        customers,
        products,
        ids,
        now,
    ) {
        Ok(purchase) => {
            let id = text::trimmed(employee_id);
            lookup::lemma_found::<AiEmployeeProduct>(products, id);
            let product = catalog::product_with(products, id)->Some_0;
            let free = carried_items(latest, product.id, now as int);
            let modules = carried_modules(latest, latest.modules, now as int);
            let employees = carried_employees(latest.ai_employees, product.id, now as int);
            let item = purchase.order.items[i];
            if 0 <= i < purchase.order.items.len() - 1 {
                assert(item == free[i]);
                if i == 0 {
                    assert(item == carried_platform(latest, now as int));
                    lemma_carried_carries(
                        "platform"@,
                        "platform"@,
                        item.title,
                        latest.exp as int,
                        now as int,
                    );
                } else if i < 1 + modules.len() {
                    assert(item == modules[i - 1]);
                    let kept = |m: Seq<char>| m != "platform"@;
                    crate::sorting::lemma_left_is_wanted(latest.modules, kept, i - 1);
                    let m = latest.modules.filter(kept)[i - 1];
                    assert(item == carried_module(latest, m, now as int));
                    lemma_carried_carries(
                        "module"@,
                        m,
                        item.title,
                        module_expiry_in(latest, m) as int,
                        now as int,
                    );
                    assert(latest.modules.contains(m) && carries_module(
                        item,
                        latest,
                        m,
                        now as int,
                    ));
                } else {
                    let at = i - 1 - modules.len();
                    assert(item == employees[at]);
                    let kept = |e: licenses::AiEmployeeEntitlementView|
                        is_carried(e, product.id, now as int);
                    crate::sorting::lemma_left_is_wanted(latest.ai_employees, kept, at);
                    let e = latest.ai_employees.filter(kept)[at];
                    assert(item == carried_employee(e, now as int));
                    let k = latest.ai_employees.index_of(e);
                    assert(latest.ai_employees[k] == e);
                    lemma_carried_carries(
                        "ai_employee"@,
                        e.id,
                        e.title,
                        e.expires_at as int,
                        now as int,
                    );
                }
            }
        },
        Err(_) => {},
    }
}

/// A purchase that is refused says why: the license cannot be used any more, the
/// customer is not active, the AI employee is not on sale, it has no price or no known
/// billing cycle, or the license that the purchase builds on was not verified.
pub proof fn law_refused_purchase_says_why(
    employee_id: Seq<char>,
    claims: licenses::LicenseClaimsView,
    latest: Option<licenses::LicenseClaimsView>,
    records: Seq<licenses::LicenseRecordView>,
    customers: Seq<customers::CustomerRecordView>,
    products: Seq<catalog::AiEmployeeProductView>,
    ids: PurchaseIdsView,
    now: i64,
)
    ensures
        purchase_outcome(
            employee_id,
            claims,
            latest,
            records,
            customers,
            products,
            ids,
            now,
        ) matches Err(e) ==> {
            let held = lookup::found::<LicenseRecord>(
                records,
                claims.license_id,
            ) matches Some(record) && record.subject == claims.subject && record.linkage_status
                != "legacy_unlinked"@ && record.platform_status != "destroyed"@;
            let known = lookup::found::<CustomerRecord>(
                customers,
                claims.subject,
            ) matches Some(customer) && customer.status == "active"@;
            let sold = lookup::found::<AiEmployeeProduct>(
                products,
                text::trimmed(employee_id),
            ) matches Some(product) && product.status == "active"@;
            let price = lookup::found::<AiEmployeeProduct>(
                products,
                text::trimmed(employee_id),
            )->Some_0.price_cents;
            &&& !held ==> e.status == 401
            &&& held && !known ==> e.status == 403
            &&& held && known && !sold ==> e.status == 404
            &&& held && known && sold && price <= 0 ==> e.status == 400
            &&& held && known && sold && price > 0 && latest is None ==> e.status == 409
            &&& held && known && sold && price > 0 && latest is Some ==> e.status == 400
        },
{
}

/// A purchase builds on the license of the customer that can be used and was issued
/// last, or on the one that was presented where none can be used.
pub proof fn law_purchase_builds_on_the_newest_license(
    employee_id: Seq<char>,
    claims: licenses::LicenseClaimsView,
    records: Seq<licenses::LicenseRecordView>,
    customers: Seq<customers::CustomerRecordView>,
    products: Seq<catalog::AiEmployeeProductView>,
    now: int,
)
    ensures
        purchase_basis(employee_id, claims, records, customers, products, now) matches Ok(basis)
            ==> {
            &&& records.contains(basis)
            &&& basis.subject == claims.subject
            &&& forall|i: int|
                0 <= i < records.len() && license_state::is_usable_by(
                    #[trigger] records[i],
                    claims.subject,
                    now,
                ) ==> license_state::is_usable_by(basis, claims.subject, now)
                    && records[i].issued_at <= basis.issued_at
            &&& (forall|i: int|
                0 <= i < records.len() ==> !license_state::is_usable_by(
                    #[trigger] records[i],
                    claims.subject,
                    now,
                )) ==> basis.license_id == claims.license_id
        },
{
    let wanted = license_state::usable(claims.subject, now);
    license_state::lemma_newest(records, wanted);
    lookup::lemma_found::<LicenseRecord>(records, claims.license_id);
    match purchase_basis(employee_id, claims, records, customers, products, now) {
        Ok(basis) => {
            assert forall|i: int|
                0 <= i < records.len() && license_state::is_usable_by(
                    #[trigger] records[i],
                    claims.subject,
                    now,
                ) implies license_state::is_usable_by(basis, claims.subject, now)
                && records[i].issued_at <= basis.issued_at by {
                assert(wanted(records[i]));
                assert(license_state::is_as_new(basis, records[i]));
            }
            match license_state::newest(records, wanted) {
                Some(latest) => {
                    let k = records.index_of(latest);
                    assert(license_state::is_usable_by(records[k], claims.subject, now));
                },
                None => {},
            }
        },
        Err(_) => {},
    }
}

} // verus!
