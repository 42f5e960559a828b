//! Licenses: what an order entitles its customer to, and how it is issued.

use vstd::prelude::*;

use crate::catalog;
use crate::catalog::{AiEmployeeProduct, OperationSkill, OperationSkillSnapshot};
use crate::clock;
use crate::copying::{duplicate_all, duplicate_opt, Duplicate};
use crate::ids;
use crate::lookup;
use crate::lookup::Keyed;
use crate::orders;
use crate::orders::{OrderLineItem, OrderRecord};
use crate::rejection;
use crate::rejection::{refuse, refuse_with, Rejection};
use crate::sorting;
use crate::sorting::Ranked;
use crate::text;
use crate::text_map;
use crate::text_map::TextMap;

verus! {

/// A request to issue the license of an order.
pub struct IssueLicenseRequest {
    pub order_id: String,
}

/// What a `IssueLicenseRequest` holds.
#[verifier::ext_equal]
pub struct IssueLicenseRequestView {
    pub order_id: Seq<char>,
}

impl View for IssueLicenseRequest {
    type V = IssueLicenseRequestView;

    open spec fn view(&self) -> IssueLicenseRequestView {
        IssueLicenseRequestView {
            order_id: self.order_id@,
        }
    }
}

/// An AI employee that a license entitles to.
pub struct AiEmployeeEntitlement {
    pub id: String,
    pub title: String,
    pub expires_at: i64,
    pub template_version: String,
    pub skills: Vec<OperationSkillSnapshot>,
    pub system_prompt: String,
    pub allowed_tools: Vec<String>,
    pub application_ids: Vec<String>,
}

/// What a `AiEmployeeEntitlement` holds.
#[verifier::ext_equal]
pub struct AiEmployeeEntitlementView {
    pub id: Seq<char>,
    pub title: Seq<char>,
    pub expires_at: i64,
    pub template_version: Seq<char>,
    pub skills: Seq<catalog::OperationSkillSnapshotView>,
    pub system_prompt: Seq<char>,
    pub allowed_tools: Seq<Seq<char>>,
    pub application_ids: Seq<Seq<char>>,
}

impl View for AiEmployeeEntitlement {
    type V = AiEmployeeEntitlementView;

    open spec fn view(&self) -> AiEmployeeEntitlementView {
        AiEmployeeEntitlementView {
            id: self.id@,
            title: self.title@,
            expires_at: self.expires_at,
            template_version: self.template_version@,
            skills: text::views(self.skills@),
            system_prompt: self.system_prompt@,
            allowed_tools: text::views(self.allowed_tools@),
            application_ids: text::views(self.application_ids@),
        }
    }
}

impl Duplicate for AiEmployeeEntitlement {
    fn duplicate(&self) -> (r: Self) {
        AiEmployeeEntitlement {
            id: self.id.clone(),
            title: self.title.clone(),
            expires_at: self.expires_at,
            template_version: self.template_version.clone(),
            skills: duplicate_all(&self.skills),
            system_prompt: self.system_prompt.clone(),
            allowed_tools: duplicate_all(&self.allowed_tools),
            application_ids: duplicate_all(&self.application_ids),
        }
    }
}

/// A plugin that a license entitles to. It holds no secrets; `manifest` is a
/// JSON document.
pub struct PluginPackageEntitlement {
    pub id: String,
    pub version: String,
    pub sha256: String,
    pub module: String,
    pub manifest: String,
    pub expires_at: i64,
}

/// What a `PluginPackageEntitlement` holds.
#[verifier::ext_equal]
pub struct PluginPackageEntitlementView {
    pub id: Seq<char>,
    pub version: Seq<char>,
    pub sha256: Seq<char>,
    pub module: Seq<char>,
    pub manifest: Seq<char>,
    pub expires_at: i64,
}

impl View for PluginPackageEntitlement {
    type V = PluginPackageEntitlementView;

    open spec fn view(&self) -> PluginPackageEntitlementView {
        PluginPackageEntitlementView {
            id: self.id@,
            version: self.version@,
            sha256: self.sha256@,
            module: self.module@,
            manifest: self.manifest@,
            expires_at: self.expires_at,
        }
    }
}

impl Duplicate for PluginPackageEntitlement {
    fn duplicate(&self) -> (r: Self) {
        PluginPackageEntitlement {
            id: self.id.clone(),
            version: self.version.clone(),
            sha256: self.sha256.clone(),
            module: self.module.clone(),
            manifest: self.manifest.clone(),
            expires_at: self.expires_at,
        }
    }
}

/// What a license states. This is what is signed.
pub struct LicenseClaims {
    pub license_id: String,
    pub subject: String,
    pub customer_name: String,
    pub order_id: String,
    pub deployment_type: String,
    pub modules: Vec<String>,
    pub iat: u64,
    pub exp: u64,
    pub module_expires_at: TextMap<i64>,
    pub module_titles: TextMap<String>,
    pub ai_employees: Vec<AiEmployeeEntitlement>,
    pub plugin_packages: Vec<PluginPackageEntitlement>,
    pub iss: String,
    pub aud: String,
}

/// What a `LicenseClaims` holds.
#[verifier::ext_equal]
pub struct LicenseClaimsView {
    pub license_id: Seq<char>,
    pub subject: Seq<char>,
    pub customer_name: Seq<char>,
    pub order_id: Seq<char>,
    pub deployment_type: Seq<char>,
    pub modules: Seq<Seq<char>>,
    pub iat: u64,
    pub exp: u64,
    pub module_expires_at: Map<Seq<char>, i64>,
    pub module_titles: Map<Seq<char>, Seq<char>>,
    pub ai_employees: Seq<AiEmployeeEntitlementView>,
    pub plugin_packages: Seq<PluginPackageEntitlementView>,
    pub iss: Seq<char>,
    pub aud: Seq<char>,
}

impl View for LicenseClaims {
    type V = LicenseClaimsView;

    open spec fn view(&self) -> LicenseClaimsView {
        LicenseClaimsView {
            license_id: self.license_id@,
            subject: self.subject@,
            customer_name: self.customer_name@,
            order_id: self.order_id@,
            deployment_type: self.deployment_type@,
            modules: text::views(self.modules@),
            iat: self.iat,
            exp: self.exp,
            module_expires_at: self.module_expires_at@,
            module_titles: self.module_titles@,
            ai_employees: text::views(self.ai_employees@),
            plugin_packages: text::views(self.plugin_packages@),
            iss: self.iss@,
            aud: self.aud@,
        }
    }
}

impl Duplicate for LicenseClaims {
    fn duplicate(&self) -> (r: Self) {
        LicenseClaims {
            license_id: self.license_id.clone(),
            subject: self.subject.clone(),
            customer_name: self.customer_name.clone(),
            order_id: self.order_id.clone(),
            deployment_type: self.deployment_type.clone(),
            modules: duplicate_all(&self.modules),
            iat: self.iat,
            exp: self.exp,
            module_expires_at: self.module_expires_at.duplicate(),
            module_titles: self.module_titles.duplicate(),
            ai_employees: duplicate_all(&self.ai_employees),
            plugin_packages: duplicate_all(&self.plugin_packages),
            iss: self.iss.clone(),
            aud: self.aud.clone(),
        }
    }
}

/// A license that was issued. `license` is the signed text.
pub struct LicenseRecord {
    pub license: String,
    pub license_id: String,
    pub subject: String,
    pub customer_name_snapshot: String,
    pub order_id: Option<String>,
    pub linkage_status: String,
    pub modules: Vec<String>,
    pub issued_at: i64,
    pub expires_at: i64,
    pub module_expires_at: TextMap<i64>,
    pub ai_employees: Vec<AiEmployeeEntitlement>,
    pub platform_status: String,
    pub module_statuses: TextMap<String>,
}

/// What a `LicenseRecord` holds.
#[verifier::ext_equal]
pub struct LicenseRecordView {
    pub license: Seq<char>,
    pub license_id: Seq<char>,
    pub subject: Seq<char>,
    pub customer_name_snapshot: Seq<char>,
    pub order_id: Option<Seq<char>>,
    pub linkage_status: Seq<char>,
    pub modules: Seq<Seq<char>>,
    pub issued_at: i64,
    pub expires_at: i64,
    pub module_expires_at: Map<Seq<char>, i64>,
    pub ai_employees: Seq<AiEmployeeEntitlementView>,
    pub platform_status: Seq<char>,
    pub module_statuses: Map<Seq<char>, Seq<char>>,
}

impl View for LicenseRecord {
    type V = LicenseRecordView;

    open spec fn view(&self) -> LicenseRecordView {
        LicenseRecordView {
            license: self.license@,
            license_id: self.license_id@,
            subject: self.subject@,
            customer_name_snapshot: self.customer_name_snapshot@,
            order_id: text::opt_view(self.order_id),
            linkage_status: self.linkage_status@,
            modules: text::views(self.modules@),
            issued_at: self.issued_at,
            expires_at: self.expires_at,
            module_expires_at: self.module_expires_at@,
            ai_employees: text::views(self.ai_employees@),
            platform_status: self.platform_status@,
            module_statuses: self.module_statuses@,
        }
    }
}

impl Duplicate for LicenseRecord {
    fn duplicate(&self) -> (r: Self) {
        LicenseRecord {
            license: self.license.clone(),
            license_id: self.license_id.clone(),
            subject: self.subject.clone(),
            customer_name_snapshot: self.customer_name_snapshot.clone(),
            order_id: duplicate_opt(&self.order_id),
            linkage_status: self.linkage_status.clone(),
            modules: duplicate_all(&self.modules),
            issued_at: self.issued_at,
            expires_at: self.expires_at,
            module_expires_at: self.module_expires_at.duplicate(),
            ai_employees: duplicate_all(&self.ai_employees),
            platform_status: self.platform_status.clone(),
            module_statuses: self.module_statuses.duplicate(),
        }
    }
}

/// The answer to a request that issued a license.
pub struct IssueLicenseResponse {
    pub license: String,
    pub license_id: String,
    pub order_id: Option<String>,
    pub expires_at: i64,
    pub module_expires_at: TextMap<i64>,
    pub module_titles: TextMap<String>,
    pub ai_employees: Vec<AiEmployeeEntitlement>,
    pub platform_status: String,
    pub module_statuses: TextMap<String>,
}

/// What a `IssueLicenseResponse` holds.
#[verifier::ext_equal]
pub struct IssueLicenseResponseView {
    pub license: Seq<char>,
    pub license_id: Seq<char>,
    pub order_id: Option<Seq<char>>,
    pub expires_at: i64,
    pub module_expires_at: Map<Seq<char>, i64>,
    pub module_titles: Map<Seq<char>, Seq<char>>,
    pub ai_employees: Seq<AiEmployeeEntitlementView>,
    pub platform_status: Seq<char>,
    pub module_statuses: Map<Seq<char>, Seq<char>>,
}

impl View for IssueLicenseResponse {
    type V = IssueLicenseResponseView;

    open spec fn view(&self) -> IssueLicenseResponseView {
        IssueLicenseResponseView {
            license: self.license@,
            license_id: self.license_id@,
            order_id: text::opt_view(self.order_id),
            expires_at: self.expires_at,
            module_expires_at: self.module_expires_at@,
            module_titles: self.module_titles@,
            ai_employees: text::views(self.ai_employees@),
            platform_status: self.platform_status@,
            module_statuses: self.module_statuses@,
        }
    }
}

/// An AI employee in an order, and until when it was ordered.
pub struct OrderedEmployee {
    pub id: String,
    pub title: String,
    pub expires_at: i64,
}

/// What a `OrderedEmployee` holds.
#[verifier::ext_equal]
pub struct OrderedEmployeeView {
    pub id: Seq<char>,
    pub title: Seq<char>,
    pub expires_at: i64,
}

impl View for OrderedEmployee {
    type V = OrderedEmployeeView;

    open spec fn view(&self) -> OrderedEmployeeView {
        OrderedEmployeeView {
            id: self.id@,
            title: self.title@,
            expires_at: self.expires_at,
        }
    }
}

/// What the items of an order come to.
pub struct Grant {
    pub platform_expires_at: Option<i64>,
    pub modules: Vec<String>,
    pub module_titles: TextMap<String>,
    pub module_expires_at: TextMap<i64>,
    pub employees: Vec<OrderedEmployee>,
}

/// What a `Grant` holds.
#[verifier::ext_equal]
pub struct GrantView {
    pub platform_expires_at: Option<i64>,
    pub modules: Seq<Seq<char>>,
    pub module_titles: Map<Seq<char>, Seq<char>>,
    pub module_expires_at: Map<Seq<char>, i64>,
    pub employees: Seq<OrderedEmployeeView>,
}

impl View for Grant {
    type V = GrantView;

    open spec fn view(&self) -> GrantView {
        GrantView {
            platform_expires_at: self.platform_expires_at,
            modules: text::views(self.modules@),
            module_titles: self.module_titles@,
            module_expires_at: self.module_expires_at@,
            employees: text::views(self.employees@),
        }
    }
}

impl Keyed for LicenseRecord {
    open spec fn key_of(record: LicenseRecordView) -> Seq<char> {
        record.license_id
    }

    fn has_key(&self, key: &str) -> (r: bool) {
        text::same(self.license_id.as_str(), key)
    }
}

impl Ranked for LicenseRecord {
    open spec fn rank_le(a: LicenseRecordView, b: LicenseRecordView) -> bool {
        a.issued_at >= b.issued_at
    }

    proof fn rank_total(a: LicenseRecordView, b: LicenseRecordView) {
    }

    proof fn rank_transitive(a: LicenseRecordView, b: LicenseRecordView, c: LicenseRecordView) {
    }

    fn may_precede(&self, other: &Self) -> (r: bool) {
        self.issued_at >= other.issued_at
    }
}

impl Keyed for OrderedEmployee {
    open spec fn key_of(record: OrderedEmployeeView) -> Seq<char> {
        record.id
    }

    fn has_key(&self, key: &str) -> (r: bool) {
        text::same(self.id.as_str(), key)
    }
}

impl Keyed for AiEmployeeEntitlement {
    open spec fn key_of(record: AiEmployeeEntitlementView) -> Seq<char> {
        record.id
    }

    fn has_key(&self, key: &str) -> (r: bool) {
        text::same(self.id.as_str(), key)
    }
}

impl Ranked for AiEmployeeEntitlement {
    open spec fn rank_le(a: AiEmployeeEntitlementView, b: AiEmployeeEntitlementView) -> bool {
        text::text_le(a.title, b.title)
    }

    proof fn rank_total(a: AiEmployeeEntitlementView, b: AiEmployeeEntitlementView) {
        text::lemma_text_le_total(a.title, b.title);
    }

    proof fn rank_transitive(
        a: AiEmployeeEntitlementView,
        b: AiEmployeeEntitlementView,
        c: AiEmployeeEntitlementView,
    ) {
        text::lemma_text_le_transitive(a.title, b.title, c.title);
    }

    fn may_precede(&self, other: &Self) -> (r: bool) {
        text::in_order(self.title.as_str(), other.title.as_str())
    }
}

/// The status of a license that was not activated.
pub fn default_unactivated_status() -> (r: String)
    ensures
        r@ == "unactivated"@,
{
    "unactivated".to_string()
}

/// The linkage of a license that belongs to an order.
pub fn default_linked_status() -> (r: String)
    ensures
        r@ == "linked"@,
{
    "linked".to_string()
}

/// Whether items of a kind entitle to something.
pub open spec fn is_licensed(kind: Seq<char>) -> bool {
    kind == "platform"@ || kind == "module"@ || kind == "ai_employee"@
}

/// How many days an item entitles to, where that is at least one.
pub open spec fn days_of(item: orders::OrderLineItemView) -> Option<u32> {
    match item.entitlement_days {
        Some(days) => if days > 0 {
            Some(days)
        } else {
            None
        },
        None => None,
    }
}

/// The second until which some days from another one last.
pub open spec fn expiry_after(second: int, days: u32) -> int {
    second + days * clock::DAY_SECONDS
}

/// The larger of two seconds.
pub open spec fn later(a: i64, b: i64) -> i64 {
    if a <= b {
        b
    } else {
        a
    }
}

/// The smaller of two seconds.
pub open spec fn earlier(a: i64, b: i64) -> i64 {
    if a <= b {
        a
    } else {
        b
    }
}

/// What an item refers to.
pub open spec fn reference_of(item: orders::OrderLineItemView) -> Seq<char> {
    match item.reference_id {
        Some(reference) => text::trimmed(reference),
        None => Seq::empty(),
    }
}

/// Ordered AI employees with one more. One that is there keeps its title and
/// lasts until the later of the two expiries.
pub open spec fn with_employee(
    employees: Seq<OrderedEmployeeView>,
    id: Seq<char>,
    title: Seq<char>,
    expires_at: i64,
) -> Seq<OrderedEmployeeView>
    decreases employees.len(),
{
    if employees.len() == 0 {
        seq![OrderedEmployeeView { id, title, expires_at }]
    } else if employees[0].id == id {
        employees.update(
            0,
            OrderedEmployeeView {
                expires_at: later(employees[0].expires_at, expires_at),
                ..employees[0]
            },
        )
    } else {
        seq![employees[0]] + with_employee(employees.skip(1), id, title, expires_at)
    }
}

proof fn lemma_with_employee_at(
    employees: Seq<OrderedEmployeeView>,
    id: Seq<char>,
    title: Seq<char>,
    expires_at: i64,
    at: int,
)
    requires
        0 <= at < employees.len(),
        employees[at].id == id,
        forall|k: int| 0 <= k < at ==> (#[trigger] employees[k]).id != id,
    ensures
        with_employee(employees, id, title, expires_at) == employees.update(
            at,
            OrderedEmployeeView {
                expires_at: later(employees[at].expires_at, expires_at),
                ..employees[at]
            },
        ),
    decreases employees.len(),
{
    if at > 0 {
        let rest = employees.skip(1);
        assert(employees[0].id != id);
        assert forall|k: int| 0 <= k < at - 1 implies (#[trigger] rest[k]).id != id by {
            assert(employees[k + 1].id != id);
        }
        lemma_with_employee_at(rest, id, title, expires_at, at - 1);
        assert(with_employee(employees, id, title, expires_at) =~= employees.update(
            at,
            OrderedEmployeeView {
                expires_at: later(employees[at].expires_at, expires_at),
                ..employees[at]
            },
        ));
    }
}

proof fn lemma_with_employee_new(
    employees: Seq<OrderedEmployeeView>,
    id: Seq<char>,
    title: Seq<char>,
    expires_at: i64,
)
    requires
        forall|k: int| 0 <= k < employees.len() ==> (#[trigger] employees[k]).id != id,
    ensures
        with_employee(employees, id, title, expires_at) == employees.push(
            OrderedEmployeeView { id, title, expires_at },
        ),
    decreases employees.len(),
{
    if employees.len() > 0 {
        let rest = employees.skip(1);
        assert(employees[0].id != id);
        assert forall|k: int| 0 <= k < rest.len() implies (#[trigger] rest[k]).id != id by {
            assert(employees[k + 1].id != id);
        }
        lemma_with_employee_new(rest, id, title, expires_at);
    }
    assert(with_employee(employees, id, title, expires_at) =~= employees.push(
        OrderedEmployeeView { id, title, expires_at },
    ));
}

/// The grant of no items.
pub open spec fn no_grant() -> GrantView {
    GrantView {
        platform_expires_at: None,
        modules: Seq::empty(),
        module_titles: Map::empty(),
        module_expires_at: Map::empty(),
        employees: Seq::empty(),
    }
}

/// A grant with one more item. A platform or module that is there already
/// lasts until the later of the two expiries and takes the later title.
pub open spec fn with_item(
    grant: GrantView,
    item: orders::OrderLineItemView,
    issued_at: int,
) -> Result<GrantView, rejection::RejectionView> {
    if !is_licensed(item.kind) {
        Ok(grant)
    } else {
        match days_of(item) {
            None => Err(
                rejection::refusal(
                    rejection::BAD_REQUEST,
                    "订单商品“"@ + item.title + "”缺少有效的授权天数"@,
                ),
            ),
            Some(days) => {
                let expires_at = expiry_after(issued_at, days) as i64;
                let reference = reference_of(item);
                let title = text::trimmed(item.title);
                if item.kind == "platform"@ {
                    Ok(
                        GrantView {
                            platform_expires_at: match grant.platform_expires_at {
                                Some(current) => Some(later(current, expires_at)),
                                None => Some(expires_at),
                            },
                            module_titles: grant.module_titles.insert("platform"@, title),
                            ..grant
                        },
                    )
                } else if item.kind == "module"@ {
                    if reference.len() == 0 {
                        Err(rejection::refusal(rejection::BAD_REQUEST, "订单模块缺少 referenceId"@))
                    } else {
                        Ok(
                            GrantView {
                                modules: grant.modules.push(reference),
                                module_titles: grant.module_titles.insert(reference, title),
                                module_expires_at: grant.module_expires_at.insert(
                                    reference,
                                    if grant.module_expires_at.contains_key(reference) {
                                        later(grant.module_expires_at[reference], expires_at)
                                    } else {
                                        expires_at
                                    },
                                ),
                                ..grant
                            },
                        )
                    }
                } else {
                    if reference.len() == 0 {
                        Err(
                            rejection::refusal(
                                rejection::BAD_REQUEST,
                                "订单 AI 员工缺少 referenceId"@,
                            ),
                        )
                    } else {
                        Ok(
                            GrantView {
                                employees: with_employee(
                                    grant.employees,
                                    reference,
                                    title,
                                    expires_at,
                                ),
                                ..grant
                            },
                        )
                    }
                }
            },
        }
    }
}

/// What some items of an order come to when they are granted at a second.
pub open spec fn granted(items: Seq<orders::OrderLineItemView>, issued_at: int) -> Result<
    GrantView,
    rejection::RejectionView,
>
    decreases items.len(),
{
    if items.len() == 0 {
        Ok(no_grant())
    } else {
        match granted(items.drop_last(), issued_at) {
            Err(e) => Err(e),
            Ok(grant) => with_item(grant, items.last(), issued_at),
        }
    }
}

/// What keeps an item from being granted, if anything: the days it entitles to,
/// or what it refers to, are missing.
pub open spec fn item_flaw(item: orders::OrderLineItemView) -> Option<rejection::RejectionView> {
    if !is_licensed(item.kind) {
        None
    } else if days_of(item) is None {
        Some(
            rejection::refusal(
                rejection::BAD_REQUEST,
                "订单商品“"@ + item.title + "”缺少有效的授权天数"@,
            ),
        )
    } else if item.kind == "platform"@ || reference_of(item).len() > 0 {
        None
    } else if item.kind == "module"@ {
        Some(rejection::refusal(rejection::BAD_REQUEST, "订单模块缺少 referenceId"@))
    } else {
        Some(rejection::refusal(rejection::BAD_REQUEST, "订单 AI 员工缺少 referenceId"@))
    }
}

/// What keeps items from being granted, if anything: the flaw of the first that
/// has one.
pub open spec fn items_flaw(items: Seq<orders::OrderLineItemView>) -> Option<
    rejection::RejectionView,
>
    decreases items.len(),
{
    if items.len() == 0 {
        None
    } else {
        match items_flaw(items.drop_last()) {
            Some(e) => Some(e),
            None => item_flaw(items.last()),
        }
    }
}

/// Whether the platform is among some items.
pub open spec fn has_platform(items: Seq<orders::OrderLineItemView>) -> bool {
    exists|i: int| 0 <= i < items.len() && (#[trigger] items[i]).kind == "platform"@
}

/// What keeps an order with some items from getting a license at any time, if
/// anything.
pub open spec fn order_flaw(items: Seq<orders::OrderLineItemView>) -> Option<
    rejection::RejectionView,
> {
    match items_flaw(items) {
        Some(e) => Some(e),
        None => if has_platform(items) {
            None
        } else {
            Some(rejection::refusal(rejection::BAD_REQUEST, "订单必须包含低代码平台授权商品"@))
        },
    }
}

/// What items come to is refused for their flaw and for nothing else, and holds
/// the platform if and only if they do.
proof fn lemma_flaw_is_why(items: Seq<orders::OrderLineItemView>, issued_at: int)
    ensures
        match granted(items, issued_at) {
            Err(e) => items_flaw(items) == Some(e),
            Ok(grant) => items_flaw(items) is None && (grant.platform_expires_at is Some
                <==> has_platform(items)),
        },
    decreases items.len(),
{
    if items.len() > 0 {
        let init = items.drop_last();
        lemma_flaw_is_why(init, issued_at);
        if has_platform(init) {
            let i = choose|i: int| 0 <= i < init.len() && (#[trigger] init[i]).kind == "platform"@;
            assert(items[i].kind == "platform"@);
        }
        if items.last().kind == "platform"@ {
            assert(items[items.len() - 1].kind == "platform"@);
        }
        if has_platform(items) {
            let i = choose|i: int| 0 <= i < items.len() && (#[trigger] items[i]).kind == "platform"@;
            if i < init.len() {
                assert(init[i].kind == "platform"@);
            }
        }
        reveal_strlit("platform");
        reveal_strlit("module");
        reveal_strlit("ai_employee");
        assert("platform"@.len() == 8);
        assert("module"@.len() == 6);
        assert("ai_employee"@.len() == 11);
    }
}

/// Whether the calendar reaches every expiry that items come to.
pub open spec fn reaches(items: Seq<orders::OrderLineItemView>, issued_at: int) -> bool {
    &&& clock::in_calendar(issued_at)
    &&& forall|k: int|
        0 <= k < items.len() && is_licensed((#[trigger] items[k]).kind) && granted(
            items.take(k),
            issued_at,
        ) is Ok ==> (days_of(items[k]) matches Some(days) ==> clock::in_calendar(
            expiry_after(issued_at, days),
        ))
}

/// Whether items of a kind entitle to something.
fn licensed(kind: &str) -> (r: bool)
    ensures
        r == is_licensed(kind@),
{
    text::same(kind, "platform") || text::same(kind, "module") || text::same(kind, "ai_employee")
}

/// What an item refers to.
fn reference(item: &OrderLineItem) -> (r: String)
    ensures
        r@ == reference_of(item@),
{
    match &item.reference_id {
        Some(reference) => text::trim_owned(reference.as_str()),
        None => {
            let empty = String::new();
            assert(empty@ =~= Seq::<char>::empty());
            empty
        },
    }
}

/// What keeps an item from being granted, if anything.
fn find_item_flaw(item: &OrderLineItem) -> (r: Option<Rejection>)
    ensures
        text::opt_view(r) == item_flaw(item@),
{
    if !licensed(item.kind.as_str()) {
        return None;
    }
    let days: u32 = match item.entitlement_days {
        Some(days) => days,
        None => 0,
    };
    if days == 0 {
        return Some(
            refuse_with(
                rejection::BAD_REQUEST,
                text::join3("订单商品“", item.title.as_str(), "”缺少有效的授权天数"),
            ),
        );
    }
    if text::same(item.kind.as_str(), "platform") || !reference(item).as_str().is_empty() {
        return None;
    }
    if text::same(item.kind.as_str(), "module") {
        return Some(refuse(rejection::BAD_REQUEST, "订单模块缺少 referenceId"));
    }
    Some(refuse(rejection::BAD_REQUEST, "订单 AI 员工缺少 referenceId"))
}

/// What keeps an order with some items from getting a license at any time, if
/// anything.
fn find_order_flaw(items: &Vec<OrderLineItem>) -> (r: Option<Rejection>)
    ensures
        text::opt_view(r) == order_flaw(text::views(items@)),
{
    let ghost all = text::views(items@);
    let mut platform = false;
    let mut i: usize = 0;
    assert(all.take(0) =~= Seq::<orders::OrderLineItemView>::empty());
    while i < items.len()
        invariant
            i <= items@.len(),
            all == text::views(items@),
            items_flaw(all.take(i as int)) is None,
            platform <==> exists|k: int| 0 <= k < i && (#[trigger] all[k]).kind == "platform"@,
        decreases items@.len() - i,
    {
        let item = &items[i];
        proof {
            assert(all.take(i + 1).drop_last() =~= all.take(i as int));
            assert(all.take(i + 1).last() == item@);
            assert(all[i as int] == item@);
        }
        match find_item_flaw(item) {
            Some(e) => {
                proof {
                    lemma_items_flaw_stays(all, i + 1);
                }
                return Some(e);
            },
            None => {},
        }
        if text::same(item.kind.as_str(), "platform") {
            platform = true;
        }
        i = i + 1;
    }
    assert(all.take(all.len() as int) =~= all);
    if platform {
        None
    } else {
        Some(refuse(rejection::BAD_REQUEST, "订单必须包含低代码平台授权商品"))
    }
}

proof fn lemma_items_flaw_stays(items: Seq<orders::OrderLineItemView>, k: int)
    requires
        0 <= k <= items.len(),
        items_flaw(items.take(k)) is Some,
    ensures
        items_flaw(items) == items_flaw(items.take(k)),
    decreases items.len(),
{
    if k == items.len() {
        assert(items.take(k) =~= items);
    } else {
        assert(items.drop_last().take(k) =~= items.take(k));
        lemma_items_flaw_stays(items.drop_last(), k);
    }
}

/// Adds an ordered AI employee.
fn add_employee(employees: &mut Vec<OrderedEmployee>, id: String, title: String, expires_at: i64)
    ensures
        text::views(final(employees)@) == with_employee(
            text::views(old(employees)@),
            id@,
            title@,
            expires_at,
        ),
{
    let ghost before = text::views(employees@);
    let ghost id_text = id@;
    let ghost title_text = title@;
    match lookup::position(&*employees, id.as_str()) {
        Some(at) => {
            let kept = OrderedEmployee {
                id: employees[at].id.clone(),
                title: employees[at].title.clone(),
                expires_at: if employees[at].expires_at <= expires_at {
                    expires_at
                } else {
                    employees[at].expires_at
                },
            };
            proof {
                assert(before[at as int] == employees@[at as int]@);
                assert forall|k: int| 0 <= k < at implies (#[trigger] before[k]).id != id_text by {
                    assert(OrderedEmployee::key_of(employees@[k]@) != id_text);
                }
                lemma_with_employee_at(before, id_text, title_text, expires_at, at as int);
            }
            let ghost kept_view = kept@;
            employees.set(at, kept);
            assert(text::views(employees@) =~= before.update(at as int, kept_view));
        },
        None => {
            let added = OrderedEmployee { id, title, expires_at };
            proof {
                assert forall|k: int| 0 <= k < before.len() implies (#[trigger] before[k]).id
                    != id_text by {
                    assert(OrderedEmployee::key_of(employees@[k]@) != id_text);
                }
                lemma_with_employee_new(before, id_text, title_text, expires_at);
                text::lemma_views_push(employees@, added);
            }
            employees.push(added);
        },
    }
}

/// Adds an item to a grant, or says why it cannot be granted.
fn add_item(grant: &mut Grant, item: &OrderLineItem, issued_at: i64) -> (r: Option<Rejection>)
    requires
        clock::in_calendar(issued_at as int),
        is_licensed(item@.kind) ==> (days_of(item@) matches Some(days) ==> clock::in_calendar(
            expiry_after(issued_at as int, days),
        )),
    ensures
        match r {
            None => with_item(old(grant)@, item@, issued_at as int) == Ok::<
                GrantView,
                rejection::RejectionView,
            >(final(grant)@),
            Some(e) => with_item(old(grant)@, item@, issued_at as int) == Err::<
                GrantView,
                rejection::RejectionView,
            >(e@),
        },
{
    match find_item_flaw(item) {
        Some(e) => {
            return Some(e);
        },
        None => {},
    }
    if !licensed(item.kind.as_str()) {
        return None;
    }
    let days: u32 = match item.entitlement_days {
        Some(days) => days,
        None => 0,
    };
    assert(days_of(item@) == Some(days));
    let expires_at = clock::add_days(issued_at, days);
    let title = text::trim_owned(item.title.as_str());
    if text::same(item.kind.as_str(), "platform") {
        grant.platform_expires_at = match grant.platform_expires_at {
            Some(current) => if current <= expires_at {
                Some(expires_at)
            } else {
                Some(current)
            },
            None => Some(expires_at),
        };
        grant.module_titles.insert("platform".to_string(), title);
        return None;
    }
    let reference = reference(item);
    if text::same(item.kind.as_str(), "module") {
        let until: i64 = match grant.module_expires_at.get(reference.as_str()) {
            Some(current) => if *current <= expires_at {
                expires_at
            } else {
                *current
            },
            None => expires_at,
        };
        grant.module_titles.insert(reference.clone(), title);
        grant.module_expires_at.insert(reference.clone(), until);
        proof {
            text::lemma_views_push(grant.modules@, reference);
        }
        grant.modules.push(reference);
        return None;
    }
    add_employee(&mut grant.employees, reference, title, expires_at);
    None
}

/// What the items of an order come to when they are granted at a second.
pub fn grant_items(items: &Vec<OrderLineItem>, issued_at: i64) -> (r: Result<Grant, Rejection>)
    requires
        reaches(text::views(items@), issued_at as int),
    ensures
        rejection::outcome(r) == granted(text::views(items@), issued_at as int),
{
    let ghost all = text::views(items@);
    let mut grant = Grant {
        platform_expires_at: None,
        modules: Vec::new(),
        module_titles: TextMap::new(),
        module_expires_at: TextMap::new(),
        employees: Vec::new(),
    };
    let mut i: usize = 0;
    assert(all.take(0) =~= Seq::<orders::OrderLineItemView>::empty());
    assert(grant@ =~= no_grant());
    while i < items.len()
        invariant
            i <= items@.len(),
            all == text::views(items@),
            reaches(all, issued_at as int),
            granted(all.take(i as int), issued_at as int) == Ok::<
                GrantView,
                rejection::RejectionView,
            >(grant@),
        decreases items@.len() - i,
    {
        proof {
            assert(all.take(i + 1).drop_last() =~= all.take(i as int));
            assert(all.take(i + 1).last() == items@[i as int]@);
            assert(all[i as int] == items@[i as int]@);
        }
        match add_item(&mut grant, &items[i], issued_at) {
            None => {},
            Some(e) => {
                proof {
                    lemma_granted_stops(all, issued_at as int, i + 1);
                }
                return Err(e);
            },
        }
        i = i + 1;
    }
    assert(all.take(all.len() as int) =~= all);
    Ok(grant)
}

/// Items of which the first ones cannot be granted cannot be granted.
proof fn lemma_granted_stops(items: Seq<orders::OrderLineItemView>, issued_at: int, k: int)
    requires
        0 <= k <= items.len(),
        granted(items.take(k), issued_at) is Err,
    ensures
        granted(items, issued_at) == granted(items.take(k), issued_at),
    decreases items.len(),
{
    if k == items.len() {
        assert(items.take(k) =~= items);
    } else {
        assert(items.drop_last().take(k) =~= items.take(k));
        lemma_granted_stops(items.drop_last(), issued_at, k);
    }
}

/// Whether the calendar reaches every expiry that items come to.
pub fn calendar_reaches(items: &Vec<OrderLineItem>, issued_at: i64) -> (r: bool)
    ensures
        r == reaches(text::views(items@), issued_at as int),
{
    if !clock::is_in_calendar(issued_at) {
        return false;
    }
    let ghost all = text::views(items@);
    let mut grant = Grant {
        platform_expires_at: None,
        modules: Vec::new(),
        module_titles: TextMap::new(),
        module_expires_at: TextMap::new(),
        employees: Vec::new(),
    };
    let mut i: usize = 0;
    assert(all.take(0) =~= Seq::<orders::OrderLineItemView>::empty());
    assert(grant@ =~= no_grant());
    while i < items.len()
        invariant
            i <= items@.len(),
            all == text::views(items@),
            clock::in_calendar(issued_at as int),
            granted(all.take(i as int), issued_at as int) == Ok::<
                GrantView,
                rejection::RejectionView,
            >(grant@),
            forall|k: int|
                0 <= k < i && is_licensed((#[trigger] all[k]).kind) && granted(
                    all.take(k),
                    issued_at as int,
                ) is Ok ==> (days_of(all[k]) matches Some(days) ==> clock::in_calendar(
                    expiry_after(issued_at as int, days),
                )),
        decreases items@.len() - i,
    {
        let item = &items[i];
        proof {
            assert(all.take(i + 1).drop_last() =~= all.take(i as int));
            assert(all.take(i + 1).last() == item@);
            assert(all[i as int] == item@);
        }
        if licensed(item.kind.as_str()) {
            let days: u32 = match item.entitlement_days {
                Some(days) => days,
                None => 0,
            };
            if days > 0 {
                assert(days_of(item@) == Some(days));
                if issued_at > clock::LAST_SECOND - days as i64 * clock::DAY_SECONDS {
                    assert(!clock::in_calendar(expiry_after(issued_at as int, days)));
                    return false;
                }
            }
        }
        match add_item(&mut grant, item, issued_at) {
            None => {},
            Some(_) => {
                proof {
                    assert forall|k: int|
                        0 <= k < all.len() && is_licensed((#[trigger] all[k]).kind) && granted(
                            all.take(k),
                            issued_at as int,
                        ) is Ok implies (days_of(all[k]) matches Some(days) ==> clock::in_calendar(
                        expiry_after(issued_at as int, days),
                    )) by {
                        if k > i {
                            assert(all.take(k).take(i + 1) =~= all.take(i + 1));
                            lemma_granted_stops(all.take(k), issued_at as int, i + 1);
                        }
                    }
                }
                return true;
            },
        }
        i = i + 1;
    }
    true
}

/// An ordered AI employee as a license entitles to it: with the skills it has
/// then, and for no longer than the platform.
pub open spec fn entitled(
    employee: OrderedEmployeeView,
    product: catalog::AiEmployeeProductView,
    skills: Seq<catalog::OperationSkillView>,
    limit: i64,
) -> AiEmployeeEntitlementView {
    AiEmployeeEntitlementView {
        id: employee.id,
        title: employee.title,
        expires_at: earlier(employee.expires_at, limit),
        template_version: product.package_version,
        skills: catalog::snapshots_of(product, skills),
        system_prompt: product.system_prompt,
        allowed_tools: product.allowed_tools,
        application_ids: product.application_ids,
    }
}

/// Ordered AI employees as a license entitles to them, in their order.
pub open spec fn all_entitled(
    employees: Seq<OrderedEmployeeView>,
    products: Seq<catalog::AiEmployeeProductView>,
    skills: Seq<catalog::OperationSkillView>,
    limit: i64,
) -> Result<Seq<AiEmployeeEntitlementView>, rejection::RejectionView>
    decreases employees.len(),
{
    if employees.len() == 0 {
        Ok(Seq::empty())
    } else {
        match all_entitled(employees.drop_last(), products, skills, limit) {
            Err(e) => Err(e),
            Ok(list) => match catalog::product_with(products, employees.last().id) {
                None => Err(
                    rejection::refusal(
                        rejection::BAD_REQUEST,
                        "订单中的 AI 员工不存在："@ + employees.last().id,
                    ),
                ),
                Some(product) => Ok(
                    list.push(entitled(employees.last(), product, skills, limit)),
                ),
            },
        }
    }
}

proof fn lemma_entitled_stops(
    employees: Seq<OrderedEmployeeView>,
    products: Seq<catalog::AiEmployeeProductView>,
    skills: Seq<catalog::OperationSkillView>,
    limit: i64,
    k: int,
)
    requires
        0 <= k <= employees.len(),
        all_entitled(employees.take(k), products, skills, limit) is Err,
    ensures
        all_entitled(employees, products, skills, limit) == all_entitled(
            employees.take(k),
            products,
            skills,
            limit,
        ),
    decreases employees.len(),
{
    if k == employees.len() {
        assert(employees.take(k) =~= employees);
    } else {
        assert(employees.drop_last().take(k) =~= employees.take(k));
        lemma_entitled_stops(employees.drop_last(), products, skills, limit, k);
    }
}

/// Ordered AI employees as a license entitles to them, in their order.
fn entitle_all(
    employees: &Vec<OrderedEmployee>,
    products: &Vec<AiEmployeeProduct>,
    skills: &Vec<OperationSkill>,
    limit: i64,
) -> (r: Result<Vec<AiEmployeeEntitlement>, Rejection>)
    ensures
        match r {
            Ok(list) => all_entitled(
                text::views(employees@),
                text::views(products@),
                text::views(skills@),
                limit,
            ) == Ok::<Seq<AiEmployeeEntitlementView>, rejection::RejectionView>(
                text::views(list@),
            ),
            Err(e) => all_entitled(
                text::views(employees@),
                text::views(products@),
                text::views(skills@),
                limit,
            ) == Err::<Seq<AiEmployeeEntitlementView>, rejection::RejectionView>(e@),
        },
{
    let ghost all = text::views(employees@);
    let ghost catalog_view = text::views(products@);
    let ghost skill_view = text::views(skills@);
    let mut out: Vec<AiEmployeeEntitlement> = Vec::new();
    let mut i: usize = 0;
    assert(all.take(0) =~= Seq::<OrderedEmployeeView>::empty());
    assert(text::views(out@) =~= Seq::<AiEmployeeEntitlementView>::empty());
    while i < employees.len()
        invariant
            i <= employees@.len(),
            all == text::views(employees@),
            catalog_view == text::views(products@),
            skill_view == text::views(skills@),
            all_entitled(all.take(i as int), catalog_view, skill_view, limit) == Ok::<
                Seq<AiEmployeeEntitlementView>,
                rejection::RejectionView,
            >(text::views(out@)),
        decreases employees@.len() - i,
    {
        let employee = &employees[i];
        proof {
            assert(all.take(i + 1).drop_last() =~= all.take(i as int));
            assert(all.take(i + 1).last() == employee@);
        }
        match lookup::find(products, employee.id.as_str()) {
            None => {
                proof {
                    lemma_entitled_stops(all, catalog_view, skill_view, limit, i + 1);
                }
                return Err(
                    refuse_with(
                        rejection::BAD_REQUEST,
                        text::join2("订单中的 AI 员工不存在：", employee.id.as_str()),
                    ),
                );
            },
            Some(product) => {
                let entitlement = AiEmployeeEntitlement {
                    id: employee.id.clone(),
                    title: employee.title.clone(),
                    expires_at: if employee.expires_at <= limit {
                        employee.expires_at
                    } else {
                        limit
                    },
                    template_version: product.package_version.clone(),
                    skills: catalog::skill_snapshots(product, skills),
                    system_prompt: product.system_prompt.clone(),
                    allowed_tools: duplicate_all(&product.allowed_tools),
                    application_ids: duplicate_all(&product.application_ids),
                };
                assert(entitlement@ =~= entitled(employee@, product@, skill_view, limit));
                proof {
                    text::lemma_views_push(out@, entitlement);
                }
                out.push(entitlement);
            },
        }
        i = i + 1;
    }
    assert(all.take(all.len() as int) =~= all);
    Ok(out)
}

/// The order that a request to issue a license names, where a license can be
/// issued for it: it is paid and none was issued.
pub open spec fn license_order(
    request: IssueLicenseRequestView,
    orders: Seq<orders::OrderRecordView>,
) -> Result<orders::OrderRecordView, rejection::RejectionView> {
    if text::blank(request.order_id) {
        Err(rejection::refusal(rejection::BAD_REQUEST, "orderId 不能为空"@))
    } else {
        match orders::order_with(orders, text::trimmed(request.order_id)) {
            None => Err(rejection::refusal(rejection::NOT_FOUND, "订单不存在"@)),
            Some(order) => if order.status != "paid"@ {
                Err(rejection::refusal(rejection::BAD_REQUEST, "只有已回款订单可以签发许可证"@))
            } else if order.license_id is Some {
                Err(rejection::refusal(rejection::CONFLICT, "该订单已经签发许可证"@))
            } else {
                Ok(order)
            },
        }
    }
}

/// The license of an order, given what its items come to.
pub open spec fn claims_for(
    order: orders::OrderRecordView,
    grant: GrantView,
    expires_at: i64,
    employees: Seq<AiEmployeeEntitlementView>,
    license_id: Seq<char>,
    now: i64,
) -> LicenseClaimsView {
    LicenseClaimsView {
        license_id,
        subject: order.customer_id,
        customer_name: order.customer_name,
        order_id: order.order_id,
        deployment_type: order.deployment_type,
        modules: sorting::sorted_set(grant.modules.push("platform"@)),
        iat: now as u64,
        exp: expires_at as u64,
        module_expires_at: text_map::capped(grant.module_expires_at, expires_at),
        module_titles: grant.module_titles,
        ai_employees: sorting::sorted_by_rank::<AiEmployeeEntitlement>(employees),
        plugin_packages: Seq::empty(),
        iss: "yaya-operation-center"@,
        aud: "yaya-low-code"@,
    }
}

/// What a request to issue a license comes to: what the license states. Its
/// time stamp is `now`, and what it entitles to counts from `issued_at`.
pub open spec fn issue_outcome(
    request: IssueLicenseRequestView,
    orders: Seq<orders::OrderRecordView>,
    products: Seq<catalog::AiEmployeeProductView>,
    skills: Seq<catalog::OperationSkillView>,
    license_id: Seq<char>,
    now: i64,
    issued_at: i64,
) -> Result<LicenseClaimsView, rejection::RejectionView> {
    match license_order(request, orders) {
        Err(e) => Err(e),
        Ok(order) => match granted(order.items, issued_at as int) {
            Err(e) => Err(e),
            Ok(grant) => match grant.platform_expires_at {
                None => Err(
                    rejection::refusal(rejection::BAD_REQUEST, "订单必须包含低代码平台授权商品"@),
                ),
                Some(expires_at) => match all_entitled(
                    grant.employees,
                    products,
                    skills,
                    expires_at,
                ) {
                    Err(e) => Err(e),
                    Ok(employees) => Ok(
                        claims_for(order, grant, expires_at, employees, license_id, now),
                    ),
                },
            },
        },
    }
}

/// What keeps a request to issue a license from being met at any time, if
/// anything.
pub open spec fn issue_flaw(
    request: IssueLicenseRequestView,
    orders: Seq<orders::OrderRecordView>,
) -> Option<rejection::RejectionView> {
    match license_order(request, orders) {
        Err(e) => Some(e),
        Ok(order) => order_flaw(order.items),
    }
}

/// Whether the calendar reaches every expiry that a request to issue a license
/// comes to. A request that is refused at any time comes to none.
pub open spec fn issue_reaches(
    request: IssueLicenseRequestView,
    orders: Seq<orders::OrderRecordView>,
    issued_at: int,
) -> bool {
    issue_flaw(request, orders) is None ==> reaches(
        license_order(request, orders)->Ok_0.items,
        issued_at,
    )
}

/// The order that a request to issue a license names.
fn find_license_order<'a>(request: &IssueLicenseRequest, orders: &'a Vec<OrderRecord>) -> (r: Result<
    &'a OrderRecord,
    Rejection,
>)
    ensures
        match r {
            Ok(order) => license_order(request@, text::views(orders@)) == Ok::<
                orders::OrderRecordView,
                rejection::RejectionView,
            >(order@),
            Err(e) => license_order(request@, text::views(orders@)) == Err::<
                orders::OrderRecordView,
                rejection::RejectionView,
            >(e@),
        },
{
    if text::is_blank(request.order_id.as_str()) {
        return Err(refuse(rejection::BAD_REQUEST, "orderId 不能为空"));
    }
    let order_id = text::trim_owned(request.order_id.as_str());
    match lookup::find(orders, order_id.as_str()) {
        None => Err(refuse(rejection::NOT_FOUND, "订单不存在")),
        Some(order) => {
            if !text::same(order.status.as_str(), "paid") {
                return Err(refuse(rejection::BAD_REQUEST, "只有已回款订单可以签发许可证"));
            }
            if order.license_id.is_some() {
                return Err(refuse(rejection::CONFLICT, "该订单已经签发许可证"));
            }
            Ok(order)
        },
    }
}

/// What the license that a request asks for states. Its identifier is
/// `license_id`, its time stamp is `now`, and what it entitles to counts from
/// `issued_at`.
pub fn plan_license(
    request: &IssueLicenseRequest,
    orders: &Vec<OrderRecord>,
    products: &Vec<AiEmployeeProduct>,
    skills: &Vec<OperationSkill>,
    license_id: String,
    now: i64,
    issued_at: i64,
) -> (r: Result<LicenseClaims, Rejection>)
    requires
        issue_reaches(request@, text::views(orders@), issued_at as int),
    ensures
        rejection::outcome(r) == issue_outcome(
            request@,
            text::views(orders@),
            text::views(products@),
            text::views(skills@),
            license_id@,
            now,
            issued_at,
        ),
{
    let order = match find_license_order(request, orders) {
        Ok(order) => order,
        Err(e) => {
            return Err(e);
        },
    };
    proof {
        lemma_flaw_is_why(order@.items, issued_at as int);
    }
    match find_order_flaw(&order.items) {
        Some(e) => {
            return Err(e);
        },
        None => {},
    }
    let grant = match grant_items(&order.items, issued_at) {
        Ok(grant) => grant,
        Err(e) => {
            return Err(e);
        },
    };
    let ghost grant_view = grant@;
    let Grant { platform_expires_at, modules, module_titles, module_expires_at, employees } = grant;
    let expires_at = match platform_expires_at {
        Some(expires_at) => expires_at,
        None => {
            return Err(refuse(rejection::BAD_REQUEST, "订单必须包含低代码平台授权商品"));
        },
    };
    let entitlements = match entitle_all(&employees, products, skills, expires_at) {
        Ok(list) => list,
        Err(e) => {
            return Err(e);
        },
    };
    let mut every_module = modules;
    let platform = "platform".to_string();
    proof {
        text::lemma_views_push(every_module@, platform);
    }
    every_module.push(platform);
    let claims = LicenseClaims {
        license_id,
        subject: order.customer_id.clone(),
        customer_name: order.customer_name.clone(),
        order_id: order.order_id.clone(),
        deployment_type: order.deployment_type.clone(),
        modules: sorting::sort_unique(every_module),
        iat: now as u64,
        exp: expires_at as u64,
        module_expires_at: module_expires_at.cap(expires_at),
        module_titles,
        ai_employees: sorting::stable_sort(entitlements),
        plugin_packages: Vec::new(),
        iss: "yaya-operation-center".to_string(),
        aud: "yaya-low-code".to_string(),
    };
    assert(text::views(claims.plugin_packages@) =~= Seq::<PluginPackageEntitlementView>::empty());
    Ok(claims)
}

/// A request for an order that is not there, not paid or licensed already, or
/// whose items are flawed or lack the platform, is refused for that, whatever
/// the time.
pub proof fn law_flawed_request_is_refused(
    request: IssueLicenseRequestView,
    orders: Seq<orders::OrderRecordView>,
    products: Seq<catalog::AiEmployeeProductView>,
    skills: Seq<catalog::OperationSkillView>,
    license_id: Seq<char>,
    now: i64,
    issued_at: i64,
)
    ensures
        issue_flaw(request, orders) matches Some(flaw) ==> issue_reaches(
            request,
            orders,
            issued_at as int,
        ) && issue_outcome(request, orders, products, skills, license_id, now, issued_at) == Err::<
            LicenseClaimsView,
            rejection::RejectionView,
        >(flaw),
        issue_outcome(
            request,
            orders,
            products,
            skills,
            license_id,
            now,
            issued_at,
        ) is Ok ==> issue_flaw(request, orders) is None,
{
    match license_order(request, orders) {
        Ok(order) => {
            lemma_flaw_is_why(order.items, issued_at as int);
        },
        Err(_) => {},
    }
}

/// What the license that a request asks for states, given its identifier, its
/// time stamp, and the second that what it entitles to counts from. Gives
/// nothing exactly where the calendar does not reach an expiry.
pub fn issue_license_at(
    request: &IssueLicenseRequest,
    orders: &Vec<OrderRecord>,
    products: &Vec<AiEmployeeProduct>,
    skills: &Vec<OperationSkill>,
    license_id: String,
    now: i64,
    issued_at: i64,
) -> (r: Option<Result<LicenseClaims, Rejection>>)
    ensures
        r is None <==> !issue_reaches(request@, text::views(orders@), issued_at as int),
        r matches Some(done) ==> rejection::outcome(done) == issue_outcome(
            request@,
            text::views(orders@),
            text::views(products@),
            text::views(skills@),
            license_id@,
            now,
            issued_at,
        ),
{
    match find_license_order(request, orders) {
        Ok(order) => {
            if find_order_flaw(&order.items).is_none() && !calendar_reaches(
                &order.items,
                issued_at,
            ) {
                return None;
            }
        },
        Err(_) => {},
    }
    Some(plan_license(request, orders, products, skills, license_id, now, issued_at))
}

/// What the license that a request asks for states, with a new identifier,
/// from now on. Gives nothing where the calendar does not reach an expiry.
pub fn issue_license(
    request: &IssueLicenseRequest,
    orders: &Vec<OrderRecord>,
    products: &Vec<AiEmployeeProduct>,
    skills: &Vec<OperationSkill>,
) -> (r: Option<Result<LicenseClaims, Rejection>>)
    ensures
        issue_flaw(request@, text::views(orders@)) matches Some(flaw) ==> (r matches Some(
            Err(refused),
        ) && refused@ == flaw),
        exists|id: Seq<char>, now: i64, issued_at: i64|
            ids::is_record_id_at(id, "lic_"@, now) && 0 <= issued_at <= clock::LAST_SECOND && (
            match r {
                Some(done) => issue_reaches(request@, text::views(orders@), issued_at as int)
                    && rejection::outcome(done) == #[trigger] issue_outcome(
                    request@,
                    text::views(orders@),
                    text::views(products@),
                    text::views(skills@),
                    id,
                    now,
                    issued_at,
                ),
                None => !issue_reaches(request@, text::views(orders@), issued_at as int),
            }),
{
    let now = clock::now();
    let issued_at = clock::now();
    let id = ids::generated_record_id("lic_");
    let ghost id_text = id@;
    assert(ids::is_record_id_at(id_text, "lic_"@, now));
    let ghost outcome = issue_outcome(
        request@,
        text::views(orders@),
        text::views(products@),
        text::views(skills@),
        id_text,
        now,
        issued_at,
    );
    proof {
        law_flawed_request_is_refused(
            request@,
            text::views(orders@),
            text::views(products@),
            text::views(skills@),
            id_text,
            now,
            issued_at,
        );
    }
    issue_license_at(request, orders, products, skills, id, now, issued_at)
}

/// A license that was issued, and the answer to the request.
pub struct IssuedLicense {
    pub record: LicenseRecord,
    pub response: IssueLicenseResponse,
}

/// The record of a license with the given claims and signed text: it belongs
/// to its order and was not activated.
pub open spec fn record_of(claims: LicenseClaimsView, license: Seq<char>) -> LicenseRecordView {
    LicenseRecordView {
        license,
        license_id: claims.license_id,
        subject: claims.subject,
        customer_name_snapshot: claims.customer_name,
        order_id: Some(claims.order_id),
        linkage_status: "linked"@,
        modules: claims.modules,
        issued_at: claims.iat as i64,
        expires_at: claims.exp as i64,
        module_expires_at: claims.module_expires_at,
        ai_employees: claims.ai_employees,
        platform_status: "unactivated"@,
        module_statuses: text_map::marked(Map::empty(), claims.modules, "unactivated"@),
    }
}

/// The answer to a request that issued a license with the given claims and
/// signed text.
pub open spec fn response_of(
    claims: LicenseClaimsView,
    license: Seq<char>,
) -> IssueLicenseResponseView {
    IssueLicenseResponseView {
        license,
        license_id: claims.license_id,
        order_id: Some(claims.order_id),
        expires_at: claims.exp as i64,
        module_expires_at: claims.module_expires_at,
        module_titles: claims.module_titles,
        ai_employees: claims.ai_employees,
        platform_status: "unactivated"@,
        module_statuses: text_map::marked(Map::empty(), claims.modules, "unactivated"@),
    }
}

/// Records a license with the given claims and signed text.
pub fn license_issued(claims: &LicenseClaims, license: String) -> (r: IssuedLicense)
    ensures
        r.record@ == record_of(claims@, license@),
        r.response@ == response_of(claims@, license@),
{
    let mut statuses: TextMap<String> = TextMap::new();
    statuses.mark(&claims.modules, "unactivated");
    let response = IssueLicenseResponse {
        license: license.clone(),
        license_id: claims.license_id.clone(),
        order_id: Some(claims.order_id.clone()),
        expires_at: claims.exp as i64,
        module_expires_at: claims.module_expires_at.duplicate(),
        module_titles: claims.module_titles.duplicate(),
        ai_employees: duplicate_all(&claims.ai_employees),
        platform_status: "unactivated".to_string(),
        module_statuses: statuses.duplicate(),
    };
    let record = LicenseRecord {
        license,
        license_id: claims.license_id.clone(),
        subject: claims.subject.clone(),
        customer_name_snapshot: claims.customer_name.clone(),
        order_id: Some(claims.order_id.clone()),
        linkage_status: "linked".to_string(),
        modules: duplicate_all(&claims.modules),
        issued_at: claims.iat as i64,
        expires_at: claims.exp as i64,
        module_expires_at: claims.module_expires_at.duplicate(),
        ai_employees: duplicate_all(&claims.ai_employees),
        platform_status: "unactivated".to_string(),
        module_statuses: statuses,
    };
    IssuedLicense { record, response }
}

/// The issuers whose licenses are accepted.
pub open spec fn is_accepted_issuer(iss: Seq<char>) -> bool {
    iss == "yaya-operation-center"@ || iss == "yaya-license-center"@
}

/// The issuers whose licenses are accepted.
pub fn accepted_issuers() -> (r: Vec<String>)
    ensures
        text::views(r@) == seq!["yaya-operation-center"@, "yaya-license-center"@],
{
    let mut out: Vec<String> = Vec::new();
    out.push("yaya-operation-center".to_string());
    out.push("yaya-license-center".to_string());
    assert(text::views(out@) =~= seq!["yaya-operation-center"@, "yaya-license-center"@]);
    out
}

/// Who licenses are made for.
pub fn accepted_audience() -> (r: String)
    ensures
        r@ == "yaya-low-code"@,
{
    "yaya-low-code".to_string()
}

/// What holds of a grant at any time: nothing in it expires before it begins.
spec fn lasts_from(grant: GrantView, issued_at: int) -> bool {
    &&& grant.platform_expires_at matches Some(e) ==> e > issued_at
    &&& forall|m: Seq<char>| #[trigger]
        grant.module_expires_at.contains_key(m) ==> grant.module_expires_at[m] > issued_at
    &&& forall|i: int|
        0 <= i < grant.employees.len() ==> (#[trigger] grant.employees[i]).expires_at > issued_at
}

proof fn lemma_with_employee_lasts(
    employees: Seq<OrderedEmployeeView>,
    id: Seq<char>,
    title: Seq<char>,
    expires_at: i64,
    issued_at: int,
)
    requires
        forall|i: int| 0 <= i < employees.len() ==> (#[trigger] employees[i]).expires_at > issued_at,
        expires_at > issued_at,
    ensures
        forall|i: int|
            0 <= i < with_employee(employees, id, title, expires_at).len() ==> (
            #[trigger] with_employee(employees, id, title, expires_at)[i]).expires_at > issued_at,
    decreases employees.len(),
{
    let after = with_employee(employees, id, title, expires_at);
    if employees.len() == 0 {
    } else if employees[0].id == id {
        assert forall|i: int| 0 <= i < after.len() implies (#[trigger] after[i]).expires_at
            > issued_at by {
            assert(employees[i].expires_at > issued_at);
        }
    } else {
        let rest = employees.skip(1);
        assert forall|i: int| 0 <= i < rest.len() implies (#[trigger] rest[i]).expires_at
            > issued_at by {
            assert(employees[i + 1].expires_at > issued_at);
        }
        lemma_with_employee_lasts(rest, id, title, expires_at, issued_at);
        let tail = with_employee(rest, id, title, expires_at);
        assert forall|i: int| 0 <= i < after.len() implies (#[trigger] after[i]).expires_at
            > issued_at by {
            if i == 0 {
                assert(employees[0].expires_at > issued_at);
            } else {
                assert(tail[i - 1].expires_at > issued_at);
            }
        }
    }
}

proof fn lemma_grant_lasts(items: Seq<orders::OrderLineItemView>, issued_at: int)
    requires
        reaches(items, issued_at),
    ensures
        granted(items, issued_at) matches Ok(grant) ==> lasts_from(grant, issued_at),
    decreases items.len(),
{
    if items.len() > 0 {
        let init = items.drop_last();
        let item = items.last();
        assert forall|k: int|
            0 <= k < init.len() && is_licensed((#[trigger] init[k]).kind) && granted(
                init.take(k),
                issued_at,
            ) is Ok implies (days_of(init[k]) matches Some(days) ==> clock::in_calendar(
            expiry_after(issued_at, days),
        )) by {
            assert(init.take(k) =~= items.take(k));
            assert(init[k] == items[k]);
        }
        lemma_grant_lasts(init, issued_at);
        match granted(init, issued_at) {
            Ok(grant) => {
                assert(items.take(items.len() - 1) =~= init);
                assert(items[items.len() - 1] == item);
                match with_item(grant, item, issued_at) {
                    Ok(after) => {
                        if is_licensed(item.kind) {
                            let days = days_of(item)->Some_0;
                            let expires_at = expiry_after(issued_at, days) as i64;
                            assert(clock::in_calendar(expiry_after(issued_at, days)));
                            assert(expires_at > issued_at);
                            if item.kind != "platform"@ && item.kind != "module"@ {
                                lemma_with_employee_lasts(
                                    grant.employees,
                                    reference_of(item),
                                    text::trimmed(item.title),
                                    expires_at,
                                    issued_at,
                                );
                            }
                            assert forall|m: Seq<char>| #[trigger]
                                after.module_expires_at.contains_key(
                                    m,
                                ) implies after.module_expires_at[m] > issued_at by {
                                if grant.module_expires_at.contains_key(m) {
                                    assert(grant.module_expires_at[m] > issued_at);
                                }
                            }
                        }
                    },
                    Err(_) => {},
                }
            },
            Err(_) => {},
        }
    }
}

proof fn lemma_entitled_within(
    employees: Seq<OrderedEmployeeView>,
    products: Seq<catalog::AiEmployeeProductView>,
    skills: Seq<catalog::OperationSkillView>,
    limit: i64,
)
    ensures
        all_entitled(employees, products, skills, limit) matches Ok(list) ==> {
            &&& list.len() == employees.len()
            &&& forall|i: int|
                0 <= i < list.len() ==> {
                    &&& (#[trigger] list[i]).id == employees[i].id
                    &&& list[i].expires_at == earlier(employees[i].expires_at, limit)
                }
        },
    decreases employees.len(),
{
    if employees.len() > 0 {
        lemma_entitled_within(employees.drop_last(), products, skills, limit);
        match all_entitled(employees, products, skills, limit) {
            Ok(list) => {
                let init = all_entitled(employees.drop_last(), products, skills, limit)->Ok_0;
                assert forall|i: int| 0 <= i < list.len() implies {
                    &&& (#[trigger] list[i]).id == employees[i].id
                    &&& list[i].expires_at == earlier(employees[i].expires_at, limit)
                } by {
                    if i < init.len() {
                        assert(init[i].id == employees.drop_last()[i].id);
                    }
                }
            },
            Err(_) => {},
        }
    }
}

/// A license that is issued holds the platform among its modules, each module
/// once and in order; it expires after it was issued; and none of its modules
/// and AI employees outlasts it. Its AI employees are in the order of their
/// titles.
pub proof fn law_issued_license_is_sound(
    request: IssueLicenseRequestView,
    orders: Seq<orders::OrderRecordView>,
    products: Seq<catalog::AiEmployeeProductView>,
    skills: Seq<catalog::OperationSkillView>,
    license_id: Seq<char>,
    now: i64,
    issued_at: i64,
)
    requires
        issue_reaches(request, orders, issued_at as int),
        0 <= issued_at,
    ensures
        issue_outcome(
            request,
            orders,
            products,
            skills,
            license_id,
            now,
            issued_at,
        ) matches Ok(claims) ==> {
            &&& claims.modules.contains("platform"@)
            &&& sorting::strictly_sorted(claims.modules)
            &&& claims.exp > issued_at
            &&& forall|m: Seq<char>| #[trigger]
                claims.module_expires_at.contains_key(m) ==> issued_at
                    < claims.module_expires_at[m] <= claims.exp
            &&& forall|i: int|
                0 <= i < claims.ai_employees.len() ==> issued_at
                    < (#[trigger] claims.ai_employees[i]).expires_at <= claims.exp
            &&& sorting::ranked::<AiEmployeeEntitlement>(claims.ai_employees)
            &&& is_accepted_issuer(claims.iss)
            &&& claims.aud == "yaya-low-code"@
        },
{
    match issue_outcome(request, orders, products, skills, license_id, now, issued_at) {
        Ok(claims) => {
            let order = license_order(request, orders)->Ok_0;
            lemma_flaw_is_why(order.items, issued_at as int);
            let grant = granted(order.items, issued_at as int)->Ok_0;
            let limit = grant.platform_expires_at->Some_0;
            let list = all_entitled(grant.employees, products, skills, limit)->Ok_0;
            lemma_grant_lasts(order.items, issued_at as int);
            lemma_entitled_within(grant.employees, products, skills, limit);
            sorting::lemma_sorted_by_rank::<AiEmployeeEntitlement>(list);
            sorting::lemma_same_members(claims.ai_employees, list);
            assert(claims.exp == limit);
            let every = grant.modules.push("platform"@);
            sorting::lemma_sorted_set_exists(every);
            assert(every[every.len() - 1] == "platform"@);
            assert(every.contains("platform"@));
            assert forall|i: int| 0 <= i < claims.ai_employees.len() implies issued_at < (
            #[trigger] claims.ai_employees[i]).expires_at <= claims.exp by {
                let e = claims.ai_employees[i];
                assert(claims.ai_employees.contains(e));
                assert(list.contains(e));
                let k = list.index_of(e);
                assert(list[k].expires_at == earlier(grant.employees[k].expires_at, limit));
                assert(grant.employees[k].expires_at > issued_at);
            }
        },
        Err(_) => {},
    }
}

/// Adding an item to a grant shortens nothing.
spec fn outlasts(after: GrantView, before: GrantView) -> bool {
    &&& before.platform_expires_at matches Some(e) ==> (after.platform_expires_at matches Some(f)
        && e <= f)
    &&& forall|m: Seq<char>| #[trigger]
        before.module_expires_at.contains_key(m) ==> after.module_expires_at.contains_key(m)
            && before.module_expires_at[m] <= after.module_expires_at[m]
    &&& forall|m: Seq<char>| #[trigger] before.modules.contains(m) ==> after.modules.contains(m)
    &&& forall|i: int|
        0 <= i < before.employees.len() ==> has_employee(
            after.employees,
            (#[trigger] before.employees[i]).id,
            before.employees[i].expires_at as int,
        )
}

/// Whether an AI employee is ordered until a second or longer.
pub open spec fn has_employee(
    employees: Seq<OrderedEmployeeView>,
    id: Seq<char>,
    until: int,
) -> bool {
    exists|k: int|
        0 <= k < employees.len() && (#[trigger] employees[k]).id == id && employees[k].expires_at
            >= until
}

proof fn lemma_with_employee_keeps(
    employees: Seq<OrderedEmployeeView>,
    id: Seq<char>,
    title: Seq<char>,
    expires_at: i64,
    i: int,
)
    requires
        0 <= i < employees.len(),
    ensures
        has_employee(
            with_employee(employees, id, title, expires_at),
            employees[i].id,
            employees[i].expires_at as int,
        ),
    decreases employees.len(),
{
    let after = with_employee(employees, id, title, expires_at);
    if employees[0].id == id {
        assert(after[i].id == employees[i].id);
    } else if i == 0 {
        assert(after[0] == employees[0]);
    } else {
        let rest = employees.skip(1);
        lemma_with_employee_keeps(rest, id, title, expires_at, i - 1);
        let tail = with_employee(rest, id, title, expires_at);
        let k = choose|k: int|
            0 <= k < tail.len() && (#[trigger] tail[k]).id == rest[i - 1].id && tail[k].expires_at
                >= rest[i - 1].expires_at;
        assert(after[k + 1] == tail[k]);
    }
}

proof fn lemma_with_employee_has(
    employees: Seq<OrderedEmployeeView>,
    id: Seq<char>,
    title: Seq<char>,
    expires_at: i64,
)
    ensures
        has_employee(with_employee(employees, id, title, expires_at), id, expires_at as int),
    decreases employees.len(),
{
    let after = with_employee(employees, id, title, expires_at);
    if employees.len() == 0 || employees[0].id == id {
        assert(after[0].id == id);
    } else {
        let rest = employees.skip(1);
        lemma_with_employee_has(rest, id, title, expires_at);
        let tail = with_employee(rest, id, title, expires_at);
        let k = choose|k: int|
            0 <= k < tail.len() && (#[trigger] tail[k]).id == id && tail[k].expires_at
                >= expires_at;
        assert(after[k + 1] == tail[k]);
    }
}

proof fn lemma_with_item_outlasts(
    grant: GrantView,
    item: orders::OrderLineItemView,
    issued_at: int,
)
    ensures
        with_item(grant, item, issued_at) matches Ok(after) ==> outlasts(after, grant),
{
    match with_item(grant, item, issued_at) {
        Ok(after) => {
            assert forall|m: Seq<char>| #[trigger] grant.modules.contains(m) implies after.modules.contains(
                m,
            ) by {
                let k = grant.modules.index_of(m);
                assert(after.modules[k] == m);
            }
            assert forall|i: int| 0 <= i < grant.employees.len() implies has_employee(
                after.employees,
                (#[trigger] grant.employees[i]).id,
                grant.employees[i].expires_at as int,
            ) by {
                if after.employees == grant.employees {
                    assert(after.employees[i].id == grant.employees[i].id);
                } else {
                    lemma_with_employee_keeps(
                        grant.employees,
                        reference_of(item),
                        text::trimmed(item.title),
                        expiry_after(issued_at, days_of(item)->Some_0) as i64,
                        i,
                    );
                }
            }
        },
        Err(_) => {},
    }
}

proof fn lemma_outlasts_transitive(a: GrantView, b: GrantView, c: GrantView)
    requires
        outlasts(a, b),
        outlasts(b, c),
    ensures
        outlasts(a, c),
{
    assert forall|m: Seq<char>| #[trigger] c.module_expires_at.contains_key(
        m,
    ) implies a.module_expires_at.contains_key(m) && c.module_expires_at[m]
        <= a.module_expires_at[m] by {
        assert(b.module_expires_at.contains_key(m));
    }
    assert forall|m: Seq<char>| #[trigger] c.modules.contains(m) implies a.modules.contains(m) by {
        assert(b.modules.contains(m));
    }
    assert forall|i: int| 0 <= i < c.employees.len() implies has_employee(
        a.employees,
        (#[trigger] c.employees[i]).id,
        c.employees[i].expires_at as int,
    ) by {
        let e = c.employees[i];
        assert(has_employee(b.employees, e.id, e.expires_at as int));
        let k = choose|k: int|
            0 <= k < b.employees.len() && (#[trigger] b.employees[k]).id == e.id
                && b.employees[k].expires_at >= e.expires_at;
        assert(has_employee(a.employees, b.employees[k].id, b.employees[k].expires_at as int));
        let m = choose|m: int|
            0 <= m < a.employees.len() && (#[trigger] a.employees[m]).id == e.id
                && a.employees[m].expires_at >= b.employees[k].expires_at;
        assert(a.employees[m].id == e.id);
    }
}

proof fn lemma_outlasts_reflexive(a: GrantView)
    ensures
        outlasts(a, a),
{
    assert forall|i: int| 0 <= i < a.employees.len() implies has_employee(
        a.employees,
        (#[trigger] a.employees[i]).id,
        a.employees[i].expires_at as int,
    ) by {}
}

/// What the first items come to is not shortened by those that follow.
proof fn lemma_granted_outlasts(items: Seq<orders::OrderLineItemView>, issued_at: int, k: int)
    requires
        0 <= k <= items.len(),
        granted(items, issued_at) is Ok,
    ensures
        granted(items.take(k), issued_at) is Ok,
        outlasts(granted(items, issued_at)->Ok_0, granted(items.take(k), issued_at)->Ok_0),
    decreases items.len(),
{
    if k == items.len() {
        assert(items.take(k) =~= items);
        lemma_outlasts_reflexive(granted(items, issued_at)->Ok_0);
    } else {
        let init = items.drop_last();
        lemma_granted_outlasts(init, issued_at, k);
        assert(init.take(k) =~= items.take(k));
        lemma_with_item_outlasts(granted(init, issued_at)->Ok_0, items.last(), issued_at);
        lemma_outlasts_transitive(
            granted(items, issued_at)->Ok_0,
            granted(init, issued_at)->Ok_0,
            granted(items.take(k), issued_at)->Ok_0,
        );
    }
}

/// A license entitles to every item of its order: to the platform and each
/// module and AI employee for at least the days of the item, or as long as the
/// license lasts.
pub proof fn law_license_honors_every_item(
    request: IssueLicenseRequestView,
    orders: Seq<orders::OrderRecordView>,
    products: Seq<catalog::AiEmployeeProductView>,
    skills: Seq<catalog::OperationSkillView>,
    license_id: Seq<char>,
    now: i64,
    issued_at: i64,
    k: int,
)
    requires
        issue_reaches(request, orders, issued_at as int),
        0 <= issued_at,
        license_order(request, orders) matches Ok(order) && 0 <= k < order.items.len()
            && is_licensed(order.items[k].kind),
    ensures
        issue_outcome(
            request,
            orders,
            products,
            skills,
            license_id,
            now,
            issued_at,
        ) matches Ok(claims) ==> {
            let item = license_order(request, orders)->Ok_0.items[k];
            let until = expiry_after(issued_at as int, days_of(item)->Some_0);
            &&& days_of(item) is Some
            &&& item.kind == "platform"@ ==> claims.exp >= until
            &&& item.kind == "module"@ ==> claims.modules.contains(reference_of(item))
                && claims.module_expires_at.contains_key(reference_of(item))
                && (claims.module_expires_at[reference_of(item)] >= until
                || claims.module_expires_at[reference_of(item)] == claims.exp)
            &&& item.kind == "ai_employee"@ ==> exists|i: int|
                0 <= i < claims.ai_employees.len() && (#[trigger] claims.ai_employees[i]).id
                    == reference_of(item) && (claims.ai_employees[i].expires_at >= until
                    || claims.ai_employees[i].expires_at == claims.exp)
        },
{
    match issue_outcome(request, orders, products, skills, license_id, now, issued_at) {
        Ok(claims) => {
            reveal_strlit("platform");
            reveal_strlit("module");
            reveal_strlit("ai_employee");
            assert("platform"@.len() == 8);
            assert("module"@.len() == 6);
            assert("ai_employee"@.len() == 11);
            let order = license_order(request, orders)->Ok_0;
            let items = order.items;
            lemma_flaw_is_why(items, issued_at as int);
            let item = items[k];
            let grant = granted(items, issued_at as int)->Ok_0;
            let limit = grant.platform_expires_at->Some_0;
            lemma_grant_lasts(items, issued_at as int);
            lemma_granted_outlasts(items, issued_at as int, k + 1);
            lemma_granted_outlasts(items, issued_at as int, k);
            assert(items.take(k + 1).drop_last() =~= items.take(k));
            assert(items.take(k + 1).last() == item);
            let before = granted(items.take(k), issued_at as int)->Ok_0;
            let mid = granted(items.take(k + 1), issued_at as int)->Ok_0;
            assert(with_item(before, item, issued_at as int) == Ok::<
                GrantView,
                rejection::RejectionView,
            >(mid));
            let days = days_of(item)->Some_0;
            let until = expiry_after(issued_at as int, days);
            assert(clock::in_calendar(until));
            assert(claims.exp == limit);
            let reference = reference_of(item);
            if item.kind == "module"@ {
                assert(mid.modules[mid.modules.len() - 1] == reference);
                assert(mid.modules.contains(reference));
                assert(grant.modules.contains(reference));
                let at = grant.modules.index_of(reference);
                let every = grant.modules.push("platform"@);
                sorting::lemma_sorted_set_exists(every);
                assert(every[at] == reference);
                assert(every.contains(reference));
                assert(mid.module_expires_at.contains_key(reference));
                assert(grant.module_expires_at.contains_key(reference));
            }
            if item.kind == "ai_employee"@ {
                lemma_with_employee_has(
                    before.employees,
                    reference,
                    text::trimmed(item.title),
                    until as i64,
                );
                let m = choose|m: int|
                    0 <= m < mid.employees.len() && (#[trigger] mid.employees[m]).id == reference
                        && mid.employees[m].expires_at >= until;
                assert(has_employee(
                    grant.employees,
                    mid.employees[m].id,
                    mid.employees[m].expires_at as int,
                ));
                let g = choose|g: int|
                    0 <= g < grant.employees.len() && (#[trigger] grant.employees[g]).id
                        == reference && grant.employees[g].expires_at
                        >= mid.employees[m].expires_at;
                let list = all_entitled(grant.employees, products, skills, limit)->Ok_0;
                lemma_entitled_within(grant.employees, products, skills, limit);
                assert(list[g].id == reference);
                sorting::lemma_sorted_by_rank::<AiEmployeeEntitlement>(list);
                sorting::lemma_same_members(claims.ai_employees, list);
                assert(list.contains(list[g]));
                assert(claims.ai_employees.contains(list[g]));
                let i = claims.ai_employees.index_of(list[g]);
                assert(claims.ai_employees[i].id == reference);
            }
        },
        Err(_) => {},
    }
}

/// Whether an item of an order is one for the platform, or for the module or the
/// AI employee with an identifier.
pub open spec fn is_for(item: orders::OrderLineItemView, kind: Seq<char>, id: Seq<char>) -> bool {
    &&& item.kind == kind
    &&& kind == "platform"@ || (item.reference_id matches Some(reference) && text::trimmed(
        reference,
    ) == id)
}

/// The second at which an item ends that is granted at a second.
pub open spec fn ends_at(item: orders::OrderLineItemView, issued_at: int) -> int {
    issued_at + item.entitlement_days->Some_0 * 86_400
}

/// Whether one of some items is for a thing.
pub open spec fn has_item(
    items: Seq<orders::OrderLineItemView>,
    kind: Seq<char>,
    id: Seq<char>,
) -> bool {
    exists|k: int| 0 <= k < items.len() && is_for(#[trigger] items[k], kind, id)
}

/// Whether a second is the latest at which one of the items for a thing ends.
pub open spec fn is_latest_end(
    items: Seq<orders::OrderLineItemView>,
    kind: Seq<char>,
    id: Seq<char>,
    issued_at: int,
    second: int,
) -> bool {
    &&& forall|k: int|
        0 <= k < items.len() && is_for(#[trigger] items[k], kind, id) ==> ends_at(
            items[k],
            issued_at,
        ) <= second
    &&& exists|k: int|
        0 <= k < items.len() && is_for(#[trigger] items[k], kind, id) && ends_at(
            items[k],
            issued_at,
        ) == second
}

/// Whether a title is that of the first item for an AI employee.
pub open spec fn is_first_title(
    items: Seq<orders::OrderLineItemView>,
    id: Seq<char>,
    title: Seq<char>,
) -> bool {
    exists|k: int|
        {
            &&& 0 <= k < items.len()
            &&& is_for(#[trigger] items[k], "ai_employee"@, id)
            &&& title == text::trimmed(items[k].title)
            &&& forall|j: int| 0 <= j < k ==> !is_for(#[trigger] items[j], "ai_employee"@, id)
        }
}

/// Whether an item gives its title to a module, as which the platform counts.
pub open spec fn names_module(item: orders::OrderLineItemView, module: Seq<char>) -> bool {
    ||| is_for(item, "module"@, module)
    ||| is_for(item, "platform"@, module) && module == "platform"@
}

/// Whether a title is that of the last item for a module.
pub open spec fn is_last_title(
    items: Seq<orders::OrderLineItemView>,
    module: Seq<char>,
    title: Seq<char>,
) -> bool {
    exists|k: int|
        {
            &&& 0 <= k < items.len()
            &&& names_module(#[trigger] items[k], module)
            &&& title == text::trimmed(items[k].title)
            &&& forall|j: int| k < j < items.len() ==> !names_module(#[trigger] items[j], module)
        }
}

/// Whether a grant holds what items come to, thing by thing.
spec fn matches_items(
    grant: GrantView,
    items: Seq<orders::OrderLineItemView>,
    issued_at: int,
) -> bool {
    &&& match grant.platform_expires_at {
        Some(e) => is_latest_end(items, "platform"@, "platform"@, issued_at, e as int),
        None => !has_item(items, "platform"@, "platform"@),
    }
    &&& forall|m: Seq<char>| #[trigger]
        grant.module_expires_at.contains_key(m) <==> has_item(items, "module"@, m)
    &&& forall|m: Seq<char>| #[trigger]
        grant.module_expires_at.contains_key(m) ==> is_latest_end(
            items,
            "module"@,
            m,
            issued_at,
            grant.module_expires_at[m] as int,
        )
    &&& forall|m: Seq<char>| #[trigger]
        grant.modules.contains(m) <==> has_item(items, "module"@, m)
    &&& forall|m: Seq<char>| #[trigger]
        grant.module_titles.contains_key(m) <==> (has_item(items, "module"@, m) || (m
            == "platform"@ && has_item(items, "platform"@, m)))
    &&& forall|m: Seq<char>| #[trigger]
        grant.module_titles.contains_key(m) ==> is_last_title(items, m, grant.module_titles[m])
    &&& forall|i: int|
        0 <= i < grant.employees.len() ==> {
            &&& is_latest_end(
                items,
                "ai_employee"@,
                (#[trigger] grant.employees[i]).id,
                issued_at,
                grant.employees[i].expires_at as int,
            )
            &&& is_first_title(items, grant.employees[i].id, grant.employees[i].title)
        }
    &&& forall|i: int, j: int|
        0 <= i < j < grant.employees.len() ==> (#[trigger] grant.employees[i]).id != (
        #[trigger] grant.employees[j]).id
    &&& forall|id: Seq<char>| #[trigger]
        has_item(items, "ai_employee"@, id) ==> exists|i: int|
            0 <= i < grant.employees.len() && (#[trigger] grant.employees[i]).id == id
}

proof fn lemma_has_item_step(items: Seq<orders::OrderLineItemView>, kind: Seq<char>, id: Seq<char>)
    requires
        items.len() > 0,
    ensures
        has_item(items, kind, id) <==> has_item(items.drop_last(), kind, id) || is_for(
            items.last(),
            kind,
            id,
        ),
{
    let init = items.drop_last();
    if has_item(items, kind, id) {
        let k = choose|k: int| 0 <= k < items.len() && is_for(#[trigger] items[k], kind, id);
        if k < init.len() {
            assert(init[k] == items[k]);
        }
    }
    if has_item(init, kind, id) {
        let k = choose|k: int| 0 <= k < init.len() && is_for(#[trigger] init[k], kind, id);
        assert(items[k] == init[k]);
    }
    if is_for(items.last(), kind, id) {
        assert(items[items.len() - 1] == items.last());
    }
}

proof fn lemma_latest_end_step(
    items: Seq<orders::OrderLineItemView>,
    kind: Seq<char>,
    id: Seq<char>,
    issued_at: int,
    second: int,
)
    requires
        items.len() > 0,
    ensures
        is_latest_end(items.drop_last(), kind, id, issued_at, second) ==> is_latest_end(
            items,
            kind,
            id,
            issued_at,
            if is_for(items.last(), kind, id) && ends_at(items.last(), issued_at) > second {
                ends_at(items.last(), issued_at)
            } else {
                second
            },
        ),
        !has_item(items.drop_last(), kind, id) && is_for(items.last(), kind, id) ==> is_latest_end(
            items,
            kind,
            id,
            issued_at,
            ends_at(items.last(), issued_at),
        ),
{
    let init = items.drop_last();
    let last = items.last();
    assert(items[items.len() - 1] == last);
    assert forall|k: int| 0 <= k < init.len() implies items[k] == #[trigger] init[k] by {}
    assert forall|k: int| 0 <= k < items.len() - 1 implies init[k] == #[trigger] items[k] by {}
    if is_latest_end(init, kind, id, issued_at, second) {
        let at = choose|k: int|
            0 <= k < init.len() && is_for(#[trigger] init[k], kind, id) && ends_at(
                init[k],
                issued_at,
            ) == second;
        assert(is_for(items[at], kind, id) && ends_at(items[at], issued_at) == second);
        let end = if is_for(last, kind, id) && ends_at(last, issued_at) > second {
            ends_at(last, issued_at)
        } else {
            second
        };
        assert forall|k: int| 0 <= k < items.len() && is_for(#[trigger] items[k], kind, id) implies
            ends_at(items[k], issued_at) <= end by {
            if k < init.len() {
                assert(is_for(init[k], kind, id));
            }
        }
        assert(is_latest_end(items, kind, id, issued_at, end));
    }
    if !has_item(init, kind, id) && is_for(last, kind, id) {
        assert forall|k: int| 0 <= k < items.len() && is_for(#[trigger] items[k], kind, id) implies
            ends_at(items[k], issued_at) <= ends_at(last, issued_at) by {
            if k < init.len() {
                assert(is_for(init[k], kind, id));
            }
        }
    }
}

proof fn lemma_titles_step(items: Seq<orders::OrderLineItemView>, id: Seq<char>, title: Seq<char>)
    requires
        items.len() > 0,
    ensures
        is_first_title(items.drop_last(), id, title) ==> is_first_title(items, id, title),
        !has_item(items.drop_last(), "ai_employee"@, id) && is_for(
            items.last(),
            "ai_employee"@,
            id,
        ) ==> is_first_title(items, id, text::trimmed(items.last().title)),
        is_last_title(items.drop_last(), id, title) && !names_module(items.last(), id)
            ==> is_last_title(items, id, title),
        names_module(items.last(), id) ==> is_last_title(
            items,
            id,
            text::trimmed(items.last().title),
        ),
{
    let init = items.drop_last();
    let last = items.last();
    assert(items[items.len() - 1] == last);
    if is_first_title(init, id, title) {
        let k = choose|k: int|
            {
                &&& 0 <= k < init.len()
                &&& is_for(#[trigger] init[k], "ai_employee"@, id)
                &&& title == text::trimmed(init[k].title)
                &&& forall|j: int| 0 <= j < k ==> !is_for(#[trigger] init[j], "ai_employee"@, id)
            };
        assert(items[k] == init[k]);
        assert forall|j: int| 0 <= j < k implies !is_for(
            #[trigger] items[j],
            "ai_employee"@,
            id,
        ) by {
            assert(items[j] == init[j]);
        }
    }
    if !has_item(init, "ai_employee"@, id) && is_for(last, "ai_employee"@, id) {
        assert forall|j: int| 0 <= j < items.len() - 1 implies !is_for(
            #[trigger] items[j],
            "ai_employee"@,
            id,
        ) by {
            assert(items[j] == init[j]);
        }
    }
    if is_last_title(init, id, title) && !names_module(last, id) {
        let k = choose|k: int|
            {
                &&& 0 <= k < init.len()
                &&& names_module(#[trigger] init[k], id)
                &&& title == text::trimmed(init[k].title)
                &&& forall|j: int|
                    k < j < init.len() ==> !names_module(#[trigger] init[j], id)
            };
        assert(items[k] == init[k]);
        assert forall|j: int| k < j < items.len() implies !names_module(
            #[trigger] items[j],
            id,
        ) by {
            if j < init.len() {
                assert(items[j] == init[j]);
            }
        }
    }
    if names_module(last, id) {
        assert(names_module(items[items.len() - 1], id));
    }
}

proof fn lemma_kinds_of_items_differ()
    ensures
        "platform"@ != "module"@,
        "platform"@ != "ai_employee"@,
        "module"@ != "ai_employee"@,
{
    reveal_strlit("platform");
    reveal_strlit("module");
    reveal_strlit("ai_employee");
    assert("platform"@.len() == 8);
    assert("module"@.len() == 6);
    assert("ai_employee"@.len() == 11);
}

proof fn lemma_module_step(
    grant: GrantView,
    after: GrantView,
    items: Seq<orders::OrderLineItemView>,
    issued_at: int,
)
    requires
        items.len() > 0,
        matches_items(grant, items.drop_last(), issued_at),
        with_item(grant, items.last(), issued_at) == Ok::<GrantView, rejection::RejectionView>(
            after,
        ),
        is_licensed(items.last().kind) ==> clock::in_calendar(ends_at(items.last(), issued_at)),
    ensures
        match after.platform_expires_at {
            Some(e) => is_latest_end(items, "platform"@, "platform"@, issued_at, e as int),
            None => !has_item(items, "platform"@, "platform"@),
        },
        forall|m: Seq<char>| #[trigger]
            after.module_expires_at.contains_key(m) <==> has_item(items, "module"@, m),
        forall|m: Seq<char>| #[trigger]
            after.module_expires_at.contains_key(m) ==> is_latest_end(
                items,
                "module"@,
                m,
                issued_at,
                after.module_expires_at[m] as int,
            ),
        forall|m: Seq<char>| #[trigger]
            after.modules.contains(m) <==> has_item(items, "module"@, m),
{
    lemma_kinds_of_items_differ();
    let init = items.drop_last();
    let item = items.last();
    lemma_has_item_step(items, "platform"@, "platform"@);
    match grant.platform_expires_at {
        Some(e) => {
            lemma_latest_end_step(items, "platform"@, "platform"@, issued_at, e as int);
        },
        None => {
            lemma_latest_end_step(items, "platform"@, "platform"@, issued_at, 0);
        },
    }
    assert forall|m: Seq<char>| #[trigger]
        after.module_expires_at.contains_key(m) <==> has_item(items, "module"@, m) by {
        lemma_has_item_step(items, "module"@, m);
        assert(grant.module_expires_at.contains_key(m) <==> has_item(init, "module"@, m));
    }
    assert forall|m: Seq<char>| #[trigger]
        after.module_expires_at.contains_key(m) implies is_latest_end(
        items,
        "module"@,
        m,
        issued_at,
        after.module_expires_at[m] as int,
    ) by {
        lemma_has_item_step(items, "module"@, m);
        assert(grant.module_expires_at.contains_key(m) <==> has_item(init, "module"@, m));
        if grant.module_expires_at.contains_key(m) {
            lemma_latest_end_step(
                items,
                "module"@,
                m,
                issued_at,
                grant.module_expires_at[m] as int,
            );
        } else {
            lemma_latest_end_step(items, "module"@, m, issued_at, 0);
        }
    }
    assert forall|m: Seq<char>| #[trigger]
        after.modules.contains(m) <==> has_item(items, "module"@, m) by {
        lemma_has_item_step(items, "module"@, m);
        assert(grant.modules.contains(m) <==> has_item(init, "module"@, m));
        if item.kind == "module"@ {
            assert(after.modules == grant.modules.push(reference_of(item)));
            assert(after.modules[grant.modules.len() as int] == reference_of(item));
            if grant.modules.contains(m) {
                let k = grant.modules.index_of(m);
                assert(after.modules[k] == m);
            }
            if after.modules.contains(m) {
                let k = after.modules.index_of(m);
                if k < grant.modules.len() {
                    assert(grant.modules[k] == m);
                }
            }
        }
    }
}

proof fn lemma_title_step(
    grant: GrantView,
    after: GrantView,
    items: Seq<orders::OrderLineItemView>,
    issued_at: int,
)
    requires
        items.len() > 0,
        matches_items(grant, items.drop_last(), issued_at),
        with_item(grant, items.last(), issued_at) == Ok::<GrantView, rejection::RejectionView>(
            after,
        ),
    ensures
        forall|m: Seq<char>| #[trigger]
            after.module_titles.contains_key(m) <==> (has_item(items, "module"@, m) || (m
                == "platform"@ && has_item(items, "platform"@, m))),
        forall|m: Seq<char>| #[trigger]
            after.module_titles.contains_key(m) ==> is_last_title(
                items,
                m,
                after.module_titles[m],
            ),
{
    lemma_kinds_of_items_differ();
    let init = items.drop_last();
    let item = items.last();
    assert forall|m: Seq<char>| #[trigger]
        after.module_titles.contains_key(m) <==> (has_item(items, "module"@, m) || (m
            == "platform"@ && has_item(items, "platform"@, m))) by {
        lemma_has_item_step(items, "module"@, m);
        lemma_has_item_step(items, "platform"@, m);
        assert(grant.module_titles.contains_key(m) <==> (has_item(init, "module"@, m) || (m
            == "platform"@ && has_item(init, "platform"@, m))));
    }
    assert forall|m: Seq<char>| #[trigger]
        after.module_titles.contains_key(m) implies is_last_title(
        items,
        m,
        after.module_titles[m],
    ) by {
        lemma_titles_step(items, m, after.module_titles[m]);
        if !names_module(item, m) {
            assert(grant.module_titles.contains_key(m));
        }
    }
}

proof fn lemma_employee_step(
    grant: GrantView,
    after: GrantView,
    items: Seq<orders::OrderLineItemView>,
    issued_at: int,
)
    requires
        items.len() > 0,
        matches_items(grant, items.drop_last(), issued_at),
        with_item(grant, items.last(), issued_at) == Ok::<GrantView, rejection::RejectionView>(
            after,
        ),
        is_licensed(items.last().kind) ==> clock::in_calendar(ends_at(items.last(), issued_at)),
    ensures
        forall|i: int|
            0 <= i < after.employees.len() ==> {
                &&& is_latest_end(
                    items,
                    "ai_employee"@,
                    (#[trigger] after.employees[i]).id,
                    issued_at,
                    after.employees[i].expires_at as int,
                )
                &&& is_first_title(items, after.employees[i].id, after.employees[i].title)
            },
        forall|i: int, j: int|
            0 <= i < j < after.employees.len() ==> (#[trigger] after.employees[i]).id != (
            #[trigger] after.employees[j]).id,
        forall|id: Seq<char>| #[trigger]
            has_item(items, "ai_employee"@, id) ==> exists|i: int|
                0 <= i < after.employees.len() && (#[trigger] after.employees[i]).id == id,
{
    lemma_kinds_of_items_differ();
    let init = items.drop_last();
    let item = items.last();
    let old_list = grant.employees;
    let new_list = after.employees;
    let id = reference_of(item);
    let title = text::trimmed(item.title);
    if item.kind == "ai_employee"@ {
        let expires_at = expiry_after(issued_at, days_of(item)->Some_0) as i64;
        assert(expires_at == ends_at(item, issued_at));
        assert(new_list == with_employee(old_list, id, title, expires_at));
        if exists|i: int| 0 <= i < old_list.len() && (#[trigger] old_list[i]).id == id {
            let at = choose|i: int| 0 <= i < old_list.len() && (#[trigger] old_list[i]).id == id;
            assert forall|k: int| 0 <= k < at implies (#[trigger] old_list[k]).id != id by {
                assert(old_list[k].id != old_list[at].id);
            }
            lemma_with_employee_at(old_list, id, title, expires_at, at);
        } else {
            lemma_with_employee_new(old_list, id, title, expires_at);
            if has_item(init, "ai_employee"@, id) {
                let i = choose|i: int|
                    0 <= i < old_list.len() && (#[trigger] old_list[i]).id == id;
                assert(false);
            }
        }
    } else {
        assert(new_list == old_list);
    }
    assert forall|i: int| 0 <= i < new_list.len() implies {
        &&& is_latest_end(
            items,
            "ai_employee"@,
            (#[trigger] new_list[i]).id,
            issued_at,
            new_list[i].expires_at as int,
        )
        &&& is_first_title(items, new_list[i].id, new_list[i].title)
    } by {
        lemma_titles_step(items, new_list[i].id, new_list[i].title);
        if i < old_list.len() {
            assert(new_list[i].id == old_list[i].id);
            lemma_latest_end_step(
                items,
                "ai_employee"@,
                new_list[i].id,
                issued_at,
                old_list[i].expires_at as int,
            );
        } else {
            lemma_latest_end_step(items, "ai_employee"@, new_list[i].id, issued_at, 0);
        }
    }
    assert forall|i: int, j: int| 0 <= i < j < new_list.len() implies (#[trigger] new_list[i]).id
        != (#[trigger] new_list[j]).id by {
        assert(new_list[i].id == old_list[i].id);
        if j < old_list.len() {
            assert(new_list[j].id == old_list[j].id);
        }
    }
    assert forall|other: Seq<char>| #[trigger]
        has_item(items, "ai_employee"@, other) implies exists|i: int|
        0 <= i < new_list.len() && (#[trigger] new_list[i]).id == other by {
        lemma_has_item_step(items, "ai_employee"@, other);
        if has_item(init, "ai_employee"@, other) {
            let i = choose|i: int| 0 <= i < old_list.len() && (#[trigger] old_list[i]).id == other;
            assert(new_list[i].id == other);
        } else if exists|i: int| 0 <= i < old_list.len() && (#[trigger] old_list[i]).id == id {
            let i = choose|i: int| 0 <= i < old_list.len() && (#[trigger] old_list[i]).id == id;
            assert(new_list[i].id == id);
        } else {
            assert(new_list[old_list.len() as int].id == id);
        }
    }
}

proof fn lemma_granted_matches(items: Seq<orders::OrderLineItemView>, issued_at: int)
    requires
        reaches(items, issued_at),
    ensures
        granted(items, issued_at) matches Ok(grant) ==> matches_items(grant, items, issued_at),
    decreases items.len(),
{
    if items.len() > 0 {
        let init = items.drop_last();
        let item = items.last();
        assert forall|k: int|
            0 <= k < init.len() && is_licensed((#[trigger] init[k]).kind) && granted(
                init.take(k),
                issued_at,
            ) is Ok implies (days_of(init[k]) matches Some(days) ==> clock::in_calendar(
            expiry_after(issued_at, days),
        )) by {
            assert(init.take(k) =~= items.take(k));
            assert(init[k] == items[k]);
        }
        lemma_granted_matches(init, issued_at);
        match granted(items, issued_at) {
            Ok(after) => {
                let grant = granted(init, issued_at)->Ok_0;
                assert(items.take(items.len() - 1) =~= init);
                assert(items[items.len() - 1] == item);
                if is_licensed(item.kind) {
                    let days = days_of(item)->Some_0;
                    assert(clock::in_calendar(expiry_after(issued_at, days)));
                }
                lemma_module_step(grant, after, items, issued_at);
                lemma_title_step(grant, after, items, issued_at);
                lemma_employee_step(grant, after, items, issued_at);
            },
            Err(_) => {},
        }
    } else {
        assert forall|m: Seq<char>| !(#[trigger] no_grant().modules.contains(m)) by {}
    }
}

proof fn lemma_entitled_is_snapshot(
    employees: Seq<OrderedEmployeeView>,
    products: Seq<catalog::AiEmployeeProductView>,
    skills: Seq<catalog::OperationSkillView>,
    limit: i64,
)
    ensures
        all_entitled(employees, products, skills, limit) matches Ok(list) ==> {
            &&& list.len() == employees.len()
            &&& forall|i: int|
                0 <= i < list.len() ==> {
                    &&& (#[trigger] list[i]).id == employees[i].id
                    &&& list[i].title == employees[i].title
                    &&& list[i].expires_at == (if employees[i].expires_at < limit {
                        employees[i].expires_at
                    } else {
                        limit
                    })
                    &&& is_snapshot_from(list[i], products, skills)
                }
        },
        all_entitled(employees, products, skills, limit) is Ok <==> forall|i: int|
            0 <= i < employees.len() ==> lookup::found::<catalog::AiEmployeeProduct>(
                products,
                (#[trigger] employees[i]).id,
            ) is Some,
    decreases employees.len(),
{
    if employees.len() > 0 {
        let init = employees.drop_last();
        lemma_entitled_is_snapshot(init, products, skills, limit);
        assert(employees[employees.len() - 1] == employees.last());
        assert forall|i: int| 0 <= i < init.len() implies employees[i] == #[trigger] init[i] by {}
        if all_entitled(init, products, skills, limit) is Ok {
            assert forall|i: int| 0 <= i < init.len() implies lookup::found::<
                catalog::AiEmployeeProduct,
            >(products, (#[trigger] employees[i]).id) is Some by {
                assert(employees[i] == init[i]);
            }
        }
        match all_entitled(employees, products, skills, limit) {
            Ok(list) => {
                let before = all_entitled(init, products, skills, limit)->Ok_0;
                lookup::lemma_found::<catalog::AiEmployeeProduct>(products, employees.last().id);
                let product = catalog::product_with(products, employees.last().id)->Some_0;
                let at = products.index_of(product);
                assert(products[at] == product);
                assert(is_snapshot_from(list.last(), products, skills));
                assert forall|i: int| 0 <= i < list.len() implies {
                    &&& (#[trigger] list[i]).id == employees[i].id
                    &&& list[i].title == employees[i].title
                    &&& list[i].expires_at == (if employees[i].expires_at < limit {
                        employees[i].expires_at
                    } else {
                        limit
                    })
                    &&& is_snapshot_from(list[i], products, skills)
                } by {
                    if i < before.len() {
                        assert(list[i] == before[i]);
                    } else {
                        assert(list[i] == list.last());
                    }
                }
            },
            Err(_) => {
                if all_entitled(init, products, skills, limit) is Ok {
                    assert(lookup::found::<catalog::AiEmployeeProduct>(
                        products,
                        employees[employees.len() - 1].id,
                    ) is None);
                } else {
                    let i = choose|i: int|
                        0 <= i < init.len() && lookup::found::<catalog::AiEmployeeProduct>(
                            products,
                            (#[trigger] init[i]).id,
                        ) is None;
                    assert(employees[i] == init[i]);
                }
            },
        }
    }
}

/// Whether an entitlement holds an AI employee as it is in the catalog: its
/// package version, its instructions, its tools and applications, and its
/// skills.
pub open spec fn is_snapshot_from(
    entitlement: AiEmployeeEntitlementView,
    products: Seq<catalog::AiEmployeeProductView>,
    skills: Seq<catalog::OperationSkillView>,
) -> bool {
    exists|p: int|
        {
            &&& 0 <= p < products.len()
            &&& (#[trigger] products[p]).id == entitlement.id
            &&& entitlement.template_version == products[p].package_version
            &&& entitlement.system_prompt == products[p].system_prompt
            &&& entitlement.allowed_tools == products[p].allowed_tools
            &&& entitlement.application_ids == products[p].application_ids
            &&& entitlement.skills == catalog::snapshots_of(products[p], skills)
        }
}

/// Whether an AI employee of a license expires with the items that it was
/// ordered with, or with the license where that is sooner.
pub open spec fn ends_with_its_items(
    entitlement: AiEmployeeEntitlementView,
    items: Seq<orders::OrderLineItemView>,
    issued_at: int,
    exp: int,
) -> bool {
    exists|latest: int|
        {
            &&& #[trigger] is_latest_end(
                items,
                "ai_employee"@,
                entitlement.id,
                issued_at,
                latest,
            )
            &&& entitlement.expires_at == (if latest < exp {
                latest
            } else {
                exp
            })
        }
}

/// An AI employee in an issued license expires exactly at the smaller of two
/// seconds: the latest at which an item of the order for it ends, counted in
/// days from when the license was issued, and the expiry of the license. It has
/// the title of the first such item and is as the catalog has it. The license
/// entitles to the AI employees of the order, each once, and to no others.
pub proof fn law_employee_ends_with_its_items(
    request: IssueLicenseRequestView,
    orders: Seq<orders::OrderRecordView>,
    products: Seq<catalog::AiEmployeeProductView>,
    skills: Seq<catalog::OperationSkillView>,
    license_id: Seq<char>,
    now: i64,
    issued_at: i64,
)
    requires
        issue_reaches(request, orders, issued_at as int),
        0 <= issued_at,
    ensures
        issue_outcome(
            request,
            orders,
            products,
            skills,
            license_id,
            now,
            issued_at,
        ) matches Ok(claims) ==> {
            let items = license_order(request, orders)->Ok_0.items;
            &&& forall|i: int|
                0 <= i < claims.ai_employees.len() ==> {
                    let employee = #[trigger] claims.ai_employees[i];
                    &&& ends_with_its_items(employee, items, issued_at as int, claims.exp as int)
                    &&& is_first_title(items, employee.id, employee.title)
                    &&& is_snapshot_from(employee, products, skills)
                }
            &&& forall|i: int, j: int|
                0 <= i < j < claims.ai_employees.len() ==> (#[trigger] claims.ai_employees[i]).id
                    != (#[trigger] claims.ai_employees[j]).id
            &&& forall|id: Seq<char>| #[trigger]
                has_item(items, "ai_employee"@, id) ==> exists|i: int|
                    0 <= i < claims.ai_employees.len() && (#[trigger] claims.ai_employees[i]).id
                        == id
        },
{
    match issue_outcome(request, orders, products, skills, license_id, now, issued_at) {
        Ok(claims) => {
            let order = license_order(request, orders)->Ok_0;
            let items = order.items;
            lemma_flaw_is_why(items, issued_at as int);
            let grant = granted(items, issued_at as int)->Ok_0;
            let limit = grant.platform_expires_at->Some_0;
            let list = all_entitled(grant.employees, products, skills, limit)->Ok_0;
            lemma_grant_lasts(items, issued_at as int);
            lemma_granted_matches(items, issued_at as int);
            lemma_entitled_is_snapshot(grant.employees, products, skills, limit);
            sorting::lemma_sorted_by_rank::<AiEmployeeEntitlement>(list);
            sorting::lemma_same_members(claims.ai_employees, list);
            assert(claims.exp == limit);
            assert forall|i: int| 0 <= i < claims.ai_employees.len() implies {
                let employee = #[trigger] claims.ai_employees[i];
                &&& ends_with_its_items(employee, items, issued_at as int, claims.exp as int)
                &&& is_first_title(items, employee.id, employee.title)
                &&& is_snapshot_from(employee, products, skills)
            } by {
                let e = claims.ai_employees[i];
                assert(claims.ai_employees.contains(e));
                assert(list.contains(e));
                let k = list.index_of(e);
                assert(list[k].id == grant.employees[k].id);
                assert(is_latest_end(
                    items,
                    "ai_employee"@,
                    e.id,
                    issued_at as int,
                    grant.employees[k].expires_at as int,
                ));
            }
            assert forall|i: int, j: int| 0 <= i < j < list.len() implies (#[trigger] list[i]).id
                != (#[trigger] list[j]).id by {
                assert(grant.employees[i].id != grant.employees[j].id);
            }
            lemma_ids_stay_different(list, claims.ai_employees);
            assert forall|id: Seq<char>| #[trigger]
                has_item(items, "ai_employee"@, id) implies exists|i: int|
                0 <= i < claims.ai_employees.len() && (#[trigger] claims.ai_employees[i]).id
                    == id by {
                let k = choose|k: int|
                    0 <= k < grant.employees.len() && (#[trigger] grant.employees[k]).id == id;
                assert(list[k].id == id);
                assert(list.contains(list[k]));
                assert(claims.ai_employees.contains(list[k]));
                let i = claims.ai_employees.index_of(list[k]);
                assert(claims.ai_employees[i].id == id);
            }
        },
        Err(_) => {},
    }
}

/// Where no item of the order for an AI employee ends after a second, neither
/// does what the license entitles to of it.
pub proof fn law_employee_does_not_outlast_its_items(
    request: IssueLicenseRequestView,
    orders: Seq<orders::OrderRecordView>,
    products: Seq<catalog::AiEmployeeProductView>,
    skills: Seq<catalog::OperationSkillView>,
    license_id: Seq<char>,
    now: i64,
    issued_at: i64,
    i: int,
    until: int,
)
    requires
        issue_reaches(request, orders, issued_at as int),
        0 <= issued_at,
        issue_outcome(
            request,
            orders,
            products,
            skills,
            license_id,
            now,
            issued_at,
        ) matches Ok(claims) && 0 <= i < claims.ai_employees.len(),
        forall|k: int|
            0 <= k < license_order(request, orders)->Ok_0.items.len() && is_for(
                #[trigger] license_order(request, orders)->Ok_0.items[k],
                "ai_employee"@,
                issue_outcome(
                    request,
                    orders,
                    products,
                    skills,
                    license_id,
                    now,
                    issued_at,
                )->Ok_0.ai_employees[i].id,
            ) ==> issued_at + license_order(
                request,
                orders,
            )->Ok_0.items[k].entitlement_days->Some_0 * 86_400 <= until,
    ensures
        issue_outcome(
            request,
            orders,
            products,
            skills,
            license_id,
            now,
            issued_at,
        )->Ok_0.ai_employees[i].expires_at <= until,
{
    law_employee_ends_with_its_items(
        request,
        orders,
        products,
        skills,
        license_id,
        now,
        issued_at,
    );
    let claims = issue_outcome(
        request,
        orders,
        products,
        skills,
        license_id,
        now,
        issued_at,
    )->Ok_0;
    let items = license_order(request, orders)->Ok_0.items;
    let employee = claims.ai_employees[i];
    assert(ends_with_its_items(employee, items, issued_at as int, claims.exp as int));
    let latest = choose|latest: int|
        {
            &&& #[trigger] is_latest_end(
                items,
                "ai_employee"@,
                employee.id,
                issued_at as int,
                latest,
            )
            &&& employee.expires_at == (if latest < claims.exp {
                latest
            } else {
                claims.exp as int
            })
        };
    let k = choose|k: int|
        0 <= k < items.len() && is_for(#[trigger] items[k], "ai_employee"@, employee.id)
            && ends_at(items[k], issued_at as int) == latest;
    assert(is_for(items[k], "ai_employee"@, employee.id));
}

proof fn lemma_ids_stay_different(
    list: Seq<AiEmployeeEntitlementView>,
    sorted: Seq<AiEmployeeEntitlementView>,
)
    requires
        list.to_multiset() == sorted.to_multiset(),
        forall|i: int, j: int|
            0 <= i < j < list.len() ==> (#[trigger] list[i]).id != (#[trigger] list[j]).id,
    ensures
        forall|i: int, j: int|
            0 <= i < j < sorted.len() ==> (#[trigger] sorted[i]).id != (#[trigger] sorted[j]).id,
{
    broadcast use vstd::seq_lib::group_to_multiset_ensures;

    assert forall|i: int, j: int| 0 <= i < j < sorted.len() implies (#[trigger] sorted[i]).id != (
    #[trigger] sorted[j]).id by {
        let a = sorted[i];
        let b = sorted[j];
        assert(list.no_duplicates()) by {
            assert forall|x: int, y: int| 0 <= x < list.len() && 0 <= y < list.len() && x
                != y implies list[x] != list[y] by {
                if x < y {
                    assert(list[x].id != list[y].id);
                } else {
                    assert(list[y].id != list[x].id);
                }
            }
        }
        assert(sorted.no_duplicates()) by {
            list.lemma_multiset_has_no_duplicates();
            sorted.lemma_multiset_has_no_duplicates_conv();
        }
        assert(sorted.contains(a) && sorted.contains(b));
        assert(sorted.to_multiset().count(a) > 0 && sorted.to_multiset().count(b) > 0);
        assert(list.contains(a) && list.contains(b));
        let x = list.index_of(a);
        let y = list.index_of(b);
        assert(list[x] == a && list[y] == b);
        if x < y {
            assert(list[x].id != list[y].id);
        } else if y < x {
            assert(list[y].id != list[x].id);
        }
    }
}

/// An issued license lasts exactly until the latest second at which an item of
/// the order for the platform ends, and each module until the latest second at
/// which an item for it ends, or as long as the license where that is sooner.
/// Its modules are the platform and those of the items, each with the title of
/// the last item for it.
pub proof fn law_license_ends_with_its_items(
    request: IssueLicenseRequestView,
    orders: Seq<orders::OrderRecordView>,
    products: Seq<catalog::AiEmployeeProductView>,
    skills: Seq<catalog::OperationSkillView>,
    license_id: Seq<char>,
    now: i64,
    issued_at: i64,
)
    requires
        issue_reaches(request, orders, issued_at as int),
        0 <= issued_at,
    ensures
        issue_outcome(
            request,
            orders,
            products,
            skills,
            license_id,
            now,
            issued_at,
        ) matches Ok(claims) ==> {
            let items = license_order(request, orders)->Ok_0.items;
            &&& is_latest_end(
                items,
                "platform"@,
                "platform"@,
                issued_at as int,
                claims.exp as int,
            )
            &&& forall|m: Seq<char>| #[trigger]
                claims.modules.contains(m) <==> (m == "platform"@ || has_item(
                    items,
                    "module"@,
                    m,
                ))
            &&& forall|m: Seq<char>| #[trigger]
                claims.module_expires_at.contains_key(m) <==> has_item(items, "module"@, m)
            &&& forall|m: Seq<char>| #[trigger]
                claims.module_expires_at.contains_key(m) ==> exists|latest: int|
                    {
                        &&& #[trigger] is_latest_end(
                            items,
                            "module"@,
                            m,
                            issued_at as int,
                            latest,
                        )
                        &&& claims.module_expires_at[m] == (if latest < claims.exp {
                            latest
                        } else {
                            claims.exp as int
                        })
                    }
            &&& forall|m: Seq<char>| #[trigger]
                claims.module_titles.contains_key(m) <==> (m == "platform"@ || has_item(
                    items,
                    "module"@,
                    m,
                ))
            &&& forall|m: Seq<char>| #[trigger]
                claims.module_titles.contains_key(m) ==> is_last_title(
                    items,
                    m,
                    claims.module_titles[m],
                )
        },
{
    match issue_outcome(request, orders, products, skills, license_id, now, issued_at) {
        Ok(claims) => {
            let order = license_order(request, orders)->Ok_0;
            let items = order.items;
            lemma_flaw_is_why(items, issued_at as int);
            let grant = granted(items, issued_at as int)->Ok_0;
            let limit = grant.platform_expires_at->Some_0;
            lemma_grant_lasts(items, issued_at as int);
            lemma_granted_matches(items, issued_at as int);
            assert(claims.exp == limit);
            let every = grant.modules.push("platform"@);
            sorting::lemma_sorted_set_exists(every);
            assert(every[every.len() - 1] == "platform"@);
            assert forall|m: Seq<char>| #[trigger]
                claims.modules.contains(m) <==> (m == "platform"@ || has_item(
                    items,
                    "module"@,
                    m,
                )) by {
                assert(claims.modules.contains(m) <==> every.contains(m));
                assert(grant.modules.contains(m) <==> has_item(items, "module"@, m));
                if grant.modules.contains(m) {
                    let k = grant.modules.index_of(m);
                    assert(every[k] == m);
                }
                if every.contains(m) {
                    let k = every.index_of(m);
                    if k < grant.modules.len() {
                        assert(grant.modules[k] == m);
                    }
                }
            }
            assert forall|m: Seq<char>| #[trigger]
                claims.module_expires_at.contains_key(m) implies exists|latest: int|
                {
                    &&& #[trigger] is_latest_end(items, "module"@, m, issued_at as int, latest)
                    &&& claims.module_expires_at[m] == (if latest < claims.exp {
                        latest
                    } else {
                        claims.exp as int
                    })
                } by {
                assert(grant.module_expires_at.contains_key(m));
                assert(is_latest_end(
                    items,
                    "module"@,
                    m,
                    issued_at as int,
                    grant.module_expires_at[m] as int,
                ));
            }
            let first = choose|k: int|
                0 <= k < items.len() && is_for(#[trigger] items[k], "platform"@, "platform"@)
                    && ends_at(items[k], issued_at as int) == claims.exp;
            assert(is_for(items[first], "platform"@, "platform"@));
            assert(has_item(items, "platform"@, "platform"@));
        },
        Err(_) => {},
    }
}

/// An issued license states whose it is: the customer, the order and the
/// deployment type are those of the order that the request names, which is paid
/// and has no license yet.
pub proof fn law_license_is_for_the_paid_order(
    request: IssueLicenseRequestView,
    orders: Seq<orders::OrderRecordView>,
    products: Seq<catalog::AiEmployeeProductView>,
    skills: Seq<catalog::OperationSkillView>,
    license_id: Seq<char>,
    now: i64,
    issued_at: i64,
)
    requires
        0 <= now,
    ensures
        issue_outcome(
            request,
            orders,
            products,
            skills,
            license_id,
            now,
            issued_at,
        ) matches Ok(claims) ==> {
            &&& claims.license_id == license_id
            &&& claims.iat == now
            &&& claims.order_id == text::trimmed(request.order_id)
            &&& claims.iss == "yaya-operation-center"@
            &&& claims.aud == "yaya-low-code"@
            &&& claims.plugin_packages.len() == 0
            &&& exists|i: int|
                {
                    &&& 0 <= i < orders.len()
                    &&& #[trigger] orders[i] == license_order(request, orders)->Ok_0
                    &&& orders[i].order_id == claims.order_id
                    &&& orders[i].customer_id == claims.subject
                    &&& orders[i].customer_name == claims.customer_name
                    &&& orders[i].deployment_type == claims.deployment_type
                    &&& orders[i].status == "paid"@
                    &&& orders[i].license_id is None
                }
        },
{
    let id = text::trimmed(request.order_id);
    lookup::lemma_found::<OrderRecord>(orders, id);
    match orders::order_with(orders, id) {
        Some(order) => {
            let i = orders.index_of(order);
            assert(orders[i] == order);
        },
        None => {},
    }
}

/// A license is issued exactly where the order that the request names is there,
/// paid and without one, where every item for the platform, a module or an AI
/// employee says for how many days and, but for the platform, for what, where one
/// of them is for the platform, and where the catalog has every AI employee.
pub proof fn law_license_is_issued_when_it_is_due(
    request: IssueLicenseRequestView,
    orders: Seq<orders::OrderRecordView>,
    products: Seq<catalog::AiEmployeeProductView>,
    skills: Seq<catalog::OperationSkillView>,
    license_id: Seq<char>,
    now: i64,
    issued_at: i64,
)
    requires
        issue_reaches(request, orders, issued_at as int),
    ensures
        issue_outcome(
            request,
            orders,
            products,
            skills,
            license_id,
            now,
            issued_at,
        ) is Ok <==> {
            &&& text::trimmed(request.order_id).len() > 0
            &&& lookup::found::<OrderRecord>(
                orders,
                text::trimmed(request.order_id),
            ) matches Some(order) && {
                &&& order.status == "paid"@
                &&& order.license_id is None
                &&& forall|k: int|
                    0 <= k < order.items.len() ==> {
                        let item = #[trigger] order.items[k];
                        item.kind == "platform"@ || item.kind == "module"@ || item.kind
                            == "ai_employee"@ ==> {
                            &&& item.entitlement_days matches Some(days) && days >= 1
                            &&& item.kind == "platform"@ || (item.reference_id matches Some(
                                reference,
                            ) && text::trimmed(reference).len() > 0)
                        }
                    }
                &&& has_item(order.items, "platform"@, "platform"@)
                &&& forall|id: Seq<char>| #[trigger]
                    has_item(order.items, "ai_employee"@, id) ==> lookup::found::<
                        catalog::AiEmployeeProduct,
                    >(products, id) is Some
            }
        },
{
    match license_order(request, orders) {
        Ok(order) => {
            let items = order.items;
            lemma_flaw_is_why(items, issued_at as int);
            lemma_items_flaw_exactly(items);
            lemma_platform_items(items);
            match granted(items, issued_at as int) {
                Ok(grant) => {
                    if order_flaw(items) is None {
                        lemma_granted_matches(items, issued_at as int);
                        let limit = grant.platform_expires_at->Some_0;
                        lemma_entitled_is_snapshot(grant.employees, products, skills, limit);
                        assert forall|i: int| 0 <= i < grant.employees.len() implies has_item(
                            items,
                            "ai_employee"@,
                            (#[trigger] grant.employees[i]).id,
                        ) by {
                            let e = grant.employees[i];
                            let k = choose|k: int|
                                0 <= k < items.len() && is_for(
                                    #[trigger] items[k],
                                    "ai_employee"@,
                                    e.id,
                                ) && ends_at(items[k], issued_at as int) == e.expires_at;
                            assert(is_for(items[k], "ai_employee"@, e.id));
                        }
                    }
                },
                Err(_) => {},
            }
        },
        Err(_) => {},
    }
}

proof fn lemma_platform_items(items: Seq<orders::OrderLineItemView>)
    ensures
        has_platform(items) <==> has_item(items, "platform"@, "platform"@),
{
    if has_platform(items) {
        let k = choose|k: int| 0 <= k < items.len() && (#[trigger] items[k]).kind == "platform"@;
        assert(is_for(items[k], "platform"@, "platform"@));
    }
    if has_item(items, "platform"@, "platform"@) {
        let k = choose|k: int|
            0 <= k < items.len() && is_for(#[trigger] items[k], "platform"@, "platform"@);
        assert(items[k].kind == "platform"@);
    }
}

proof fn lemma_items_flaw_exactly(items: Seq<orders::OrderLineItemView>)
    ensures
        items_flaw(items) is None <==> forall|k: int|
            0 <= k < items.len() ==> item_flaw(#[trigger] items[k]) is None,
    decreases items.len(),
{
    if items.len() > 0 {
        let init = items.drop_last();
        lemma_items_flaw_exactly(init);
        assert(items[items.len() - 1] == items.last());
        assert forall|k: int| 0 <= k < init.len() implies items[k] == #[trigger] init[k] by {}
        if items_flaw(items) is None {
            assert forall|k: int| 0 <= k < items.len() implies item_flaw(
                #[trigger] items[k],
            ) is None by {
                if k < init.len() {
                    assert(item_flaw(init[k]) is None);
                }
            }
        }
    }
}

/// A license that is issued is recorded with what it states, belongs to its
/// order, and was activated neither as a whole nor in any of its modules. The
/// answer says the same.
pub proof fn law_issued_license_is_recorded(claims: LicenseClaimsView, license: Seq<char>)
    requires
        claims.iat <= i64::MAX,
        claims.exp <= i64::MAX,
    ensures
        ({
            let record = record_of(claims, license);
            &&& record.license == license
            &&& record.license_id == claims.license_id
            &&& record.subject == claims.subject
            &&& record.customer_name_snapshot == claims.customer_name
            &&& record.order_id == Some(claims.order_id)
            &&& record.linkage_status == "linked"@
            &&& record.modules == claims.modules
            &&& record.issued_at == claims.iat
            &&& record.expires_at == claims.exp
            &&& record.module_expires_at == claims.module_expires_at
            &&& record.ai_employees == claims.ai_employees
            &&& record.platform_status == "unactivated"@
            &&& forall|m: Seq<char>| #[trigger]
                record.module_statuses.contains_key(m) <==> claims.modules.contains(m)
            &&& forall|m: Seq<char>|
                claims.modules.contains(m) ==> #[trigger] record.module_statuses[m]
                    == "unactivated"@
        }),
        ({
            let answer = response_of(claims, license);
            &&& answer.license == license
            &&& answer.license_id == claims.license_id
            &&& answer.order_id == Some(claims.order_id)
            &&& answer.expires_at == claims.exp
            &&& answer.module_expires_at == claims.module_expires_at
            &&& answer.module_titles == claims.module_titles
            &&& answer.ai_employees == claims.ai_employees
            &&& answer.platform_status == "unactivated"@
            &&& answer.module_statuses == record_of(claims, license).module_statuses
        }),
{
}

/// The AI employees of an issued license are in the order of their titles.
pub proof fn law_employees_are_in_the_order_of_their_titles(
    request: IssueLicenseRequestView,
    orders: Seq<orders::OrderRecordView>,
    products: Seq<catalog::AiEmployeeProductView>,
    skills: Seq<catalog::OperationSkillView>,
    license_id: Seq<char>,
    now: i64,
    issued_at: i64,
)
    ensures
        issue_outcome(
            request,
            orders,
            products,
            skills,
            license_id,
            now,
            issued_at,
        ) matches Ok(claims) ==> forall|i: int, j: int|
            0 <= i < j < claims.ai_employees.len() ==> text::text_le(
                (#[trigger] claims.ai_employees[i]).title,
                (#[trigger] claims.ai_employees[j]).title,
            ),
{
    match issue_outcome(request, orders, products, skills, license_id, now, issued_at) {
        Ok(claims) => {
            let order = license_order(request, orders)->Ok_0;
            let grant = granted(order.items, issued_at as int)->Ok_0;
            let limit = grant.platform_expires_at->Some_0;
            let list = all_entitled(grant.employees, products, skills, limit)->Ok_0;
            sorting::lemma_sorted_by_rank::<AiEmployeeEntitlement>(list);
            assert forall|i: int, j: int|
                0 <= i < j < claims.ai_employees.len() implies text::text_le(
                (#[trigger] claims.ai_employees[i]).title,
                (#[trigger] claims.ai_employees[j]).title,
            ) by {
                assert(AiEmployeeEntitlement::rank_le(
                    claims.ai_employees[i],
                    claims.ai_employees[j],
                ));
            }
        },
        Err(_) => {},
    }
}

/// A license is accepted from the issuer that issues them and from the one that did
/// so before, and from no other.
pub proof fn law_accepted_issuers_are_fixed(iss: Seq<char>)
    ensures
        is_accepted_issuer(iss) <==> iss == "yaya-operation-center"@ || iss
            == "yaya-license-center"@,
{
}

/// A request to issue a license that is refused says why: the order is not there, it
/// has a license already, or else the request is a bad one.
pub proof fn law_refused_license_says_why(
    request: IssueLicenseRequestView,
    orders: Seq<orders::OrderRecordView>,
    products: Seq<catalog::AiEmployeeProductView>,
    skills: Seq<catalog::OperationSkillView>,
    license_id: Seq<char>,
    now: i64,
    issued_at: i64,
)
    ensures
        issue_outcome(
            request,
            orders,
            products,
            skills,
            license_id,
            now,
            issued_at,
        ) matches Err(e) ==> {
            let found = lookup::found::<OrderRecord>(orders, text::trimmed(request.order_id));
            &&& e.status == 400 || e.status == 404 || e.status == 409
            &&& e.status == 404 <==> text::trimmed(request.order_id).len() > 0 && found is None
            &&& e.status == 409 <==> text::trimmed(request.order_id).len() > 0 && (
            found matches Some(order) && order.status == "paid"@ && order.license_id is Some)
        },
{
    match license_order(request, orders) {
        Ok(order) => {
            lemma_granted_refusal(order.items, issued_at as int);
            match granted(order.items, issued_at as int) {
                Ok(grant) => {
                    match grant.platform_expires_at {
                        Some(limit) => {
                            lemma_entitled_refusal(grant.employees, products, skills, limit);
                        },
                        None => {},
                    }
                },
                Err(_) => {},
            }
        },
        Err(_) => {},
    }
}

proof fn lemma_granted_refusal(items: Seq<orders::OrderLineItemView>, issued_at: int)
    ensures
        granted(items, issued_at) matches Err(e) ==> e.status == 400,
    decreases items.len(),
{
    if items.len() > 0 {
        lemma_granted_refusal(items.drop_last(), issued_at);
    }
}

proof fn lemma_entitled_refusal(
    employees: Seq<OrderedEmployeeView>,
    products: Seq<catalog::AiEmployeeProductView>,
    skills: Seq<catalog::OperationSkillView>,
    limit: i64,
)
    ensures
        all_entitled(employees, products, skills, limit) matches Err(e) ==> e.status == 400,
    decreases employees.len(),
{
    if employees.len() > 0 {
        lemma_entitled_refusal(employees.drop_last(), products, skills, limit);
    }
}

} // verus!
