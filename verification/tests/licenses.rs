use operation_center::audit::{AuditLogCustomer, OrderOwner};
use operation_center::catalog::{AiEmployeeProduct, OperationSkill};
use operation_center::customers::CustomerRecord;
use operation_center::deletion::{
    ai_employee_deletion_eligibility, ai_employee_deletion_eligibility_from_licenses,
    delete_ai_employee_product, delete_operation_skill, get_ai_employee_deletion_eligibility,
    get_operation_skill_deletion_eligibility, operation_skill_deletion_eligibility,
};
use operation_center::legacy::{
    import_at_first_start, import_legacy_licenses, relate_licenses, LicenseRow, Placement,
};
use operation_center::license_state::{
    activate_latest_license_record, activate_license, activate_license_at, destroy,
    destroy_license_by_id, insert_issued_license, license_status, license_status_at, license_view,
    license_view_at, list_licenses, module_expiry, module_title, newest_usable, LicenseStatus,
};
use operation_center::licenses::{
    accepted_audience, accepted_issuers, calendar_reaches, default_linked_status,
    default_unactivated_status, grant_items, issue_license, issue_license_at, license_issued, plan_license,
    AiEmployeeEntitlement, IssueLicenseRequest, LicenseClaims, LicenseRecord,
};
use operation_center::market::{
    archive_disposition, download_owned_ai_employee_skill_archive, find_owned,
    get_owned_ai_employee_package, owned_package, owned_skill, require_license,
};
use operation_center::orders::{OrderLineItem, OrderRecord};
use operation_center::purchase::{
    complete_purchase, cumulative_entitlement_items, purchase_license, purchase_response,
    remaining_days, test_purchase_ai_employee, PurchaseIds,
};
use operation_center::text_map::TextMap;

const DAY: i64 = 86_400;

fn s(text: &str) -> String {
    text.to_string()
}

fn map(entries: &[(&str, i64)]) -> TextMap<i64> {
    let mut out: TextMap<i64> = TextMap::new();
    for (key, value) in entries {
        out.insert(s(key), *value);
    }
    out
}

fn names(entries: &[(&str, &str)]) -> TextMap<String> {
    let mut out: TextMap<String> = TextMap::new();
    for (key, value) in entries {
        out.insert(s(key), s(value));
    }
    out
}

fn item(kind: &str, reference: Option<&str>, title: &str, days: Option<u32>) -> OrderLineItem {
    OrderLineItem {
        kind: s(kind),
        reference_id: reference.map(s),
        title: s(title),
        quantity: 1,
        unit_price_cents: 100,
        entitlement_days: days,
    }
}

fn order(status: &str, items: Vec<OrderLineItem>) -> OrderRecord {
    OrderRecord {
        order_id: s("ord_1"),
        order_no: s("YY20260101-ABCDEF"),
        customer_id: s("cus_1"),
        customer_name: s("客户一"),
        items,
        total_amount_cents: 100,
        received_amount_cents: 100,
        status: s(status),
        created_at: 5,
        due_at: None,
        deployment_type: s("local"),
        paid_at: Some(6),
        license_id: None,
        notes: s(""),
        provider_id: None,
    }
}

fn product(id: &str, status: &str) -> AiEmployeeProduct {
    AiEmployeeProduct {
        id: s(id),
        title: s("报价助手"),
        description: s(""),
        category: s("通用"),
        price_cents: 500,
        billing_cycle: s("year"),
        version: s("1.0.0"),
        package_version: s("2.0.1"),
        skill_ids: vec![s("skill_2"), s("skill_1"), s("skill_2"), s("skill_gone")],
        system_prompt: s("prompt"),
        allow_network: false,
        allowed_tools: vec![s("list_apps")],
        application_ids: vec![s("app_1")],
        avatar_url: None,
        status: s(status),
        created_at: 0,
        updated_at: 0,
    }
}

fn skill(id: &str) -> OperationSkill {
    OperationSkill {
        id: s(id),
        title: s("技能"),
        package_name: s("quote"),
        source: s("imported"),
        version: s("1.0.1"),
        package_path: s("runtime/skills/quote/SKILL.md"),
        description: s(""),
        instructions: s("do it"),
        status: s("active"),
        created_at: 0,
        updated_at: 0,
    }
}

fn customer(status: &str) -> CustomerRecord {
    CustomerRecord {
        customer_id: s("cus_1"),
        name: s("客户一"),
        contact_name: s(""),
        contact_phone: s(""),
        contact_email: s(""),
        status: s(status),
        notes: s(""),
        created_at: 0,
    }
}

fn employee(id: &str, expires_at: i64) -> AiEmployeeEntitlement {
    AiEmployeeEntitlement {
        id: s(id),
        title: s("报价助手"),
        expires_at,
        template_version: s("1.0.0"),
        skills: vec![],
        system_prompt: s(""),
        allowed_tools: vec![],
        application_ids: vec![],
    }
}

fn record(id: &str, order_id: &str, issued_at: i64, status: &str) -> LicenseRecord {
    LicenseRecord {
        license: s("signed-token"),
        license_id: s(id),
        subject: s("cus_1"),
        customer_name_snapshot: s("客户一"),
        order_id: Some(s(order_id)),
        linkage_status: s("linked"),
        modules: vec![s("platform")],
        issued_at,
        expires_at: 9_999_999_999,
        module_expires_at: map(&[]),
        ai_employees: vec![],
        platform_status: s(status),
        module_statuses: names(&[("platform", status)]),
    }
}

fn claims(id: &str) -> LicenseClaims {
    LicenseClaims {
        license_id: s(id),
        subject: s("cus_1"),
        customer_name: s("客户一"),
        order_id: s("ord_1"),
        deployment_type: s("local"),
        modules: vec![s("communication"), s("platform")],
        iat: 0,
        exp: 10 * DAY as u64,
        module_expires_at: map(&[("communication", 5 * DAY)]),
        module_titles: names(&[("platform", "平台版")]),
        ai_employees: vec![
            employee("emp_1", 3 * DAY),
            employee("emp_2", 2 * DAY + 1),
            employee("emp_3", 0),
        ],
        plugin_packages: vec![],
        iss: s("yaya-operation-center"),
        aud: s("yaya-low-code"),
    }
}

fn request() -> IssueLicenseRequest {
    IssueLicenseRequest {
        order_id: s(" ord_1 "),
    }
}

#[test]
fn activating_latest_license_destroys_older_subject_licenses() {
    let old = record("lic_old", "ord_old", 1, "running");
    let mut latest = record("lic_latest", "ord_latest", 2, "unactivated");
    let mut table = vec![
        record("lic_old", "ord_old", 1, "running"),
        record("lic_latest", "ord_latest", 2, "unactivated"),
    ];
    latest.platform_status = s("running");
    latest.module_statuses.insert(s("platform"), s("running"));
    assert!(activate_latest_license_record(&mut table, &latest));
    assert!(!activate_latest_license_record(&mut table, &old));
    assert_eq!(table[0].platform_status, "destroyed");
    assert_eq!(table[0].module_statuses.get("platform"), Some(&s("destroyed")));
    assert_eq!(table[1].platform_status, "running");
    assert_eq!(table[1].module_statuses.get("platform"), Some(&s("running")));
}

#[test]
fn activation_keeps_other_customers() {
    let mut other = record("lic_other", "ord_other", 1, "running");
    other.subject = s("cus_2");
    let mut table = vec![other, record("lic_1", "ord_1", 2, "unactivated")];
    let latest = record("lic_1", "ord_1", 2, "running");
    assert!(activate_latest_license_record(&mut table, &latest));
    assert_eq!(table[0].platform_status, "running");
}

#[test]
fn remaining_days_rounds_up_and_never_returns_zero() {
    assert_eq!(remaining_days(86_400, 0), 1);
    assert_eq!(remaining_days(86_401, 0), 2);
    assert_eq!(remaining_days(0, 0), 1);
}

#[test]
fn remaining_days_are_capped() {
    assert_eq!(remaining_days(i64::MAX, 0), u32::MAX);
    assert_eq!(remaining_days(i64::MIN, i64::MAX), 1);
    assert_eq!(remaining_days(i64::MAX, i64::MIN), u32::MAX);
}

#[test]
fn license_honors_every_item() {
    let items = vec![
        item("platform", None, " 平台版 ", Some(10)),
        item("module", Some(" communication "), "通讯", Some(20)),
        item("module", Some("bi"), "报表", Some(4)),
        item("ai_employee", Some("emp_1"), " 助手 ", Some(30)),
        item("ai_employee", Some("emp_1"), "另一个", Some(2)),
        item("service", None, "上门", None),
        item("platform", None, "平台", Some(3)),
    ];
    let grant = grant_items(&items, 0).ok().unwrap();
    assert_eq!(grant.platform_expires_at, Some(10 * DAY));
    assert_eq!(grant.employees.len(), 1);
    assert_eq!(grant.employees[0].title, "助手");
    assert_eq!(grant.employees[0].expires_at, 30 * DAY);
    let planned = plan_license(
        &request(),
        &vec![order("paid", items)],
        &vec![product("emp_1", "inactive")],
        &vec![skill("skill_1"), skill("skill_2")],
        s("lic_9"),
        3,
        0,
    )
    .ok()
    .unwrap();
    assert_eq!(planned.license_id, "lic_9");
    assert_eq!(planned.subject, "cus_1");
    assert_eq!(planned.customer_name, "客户一");
    assert_eq!(planned.deployment_type, "local");
    assert_eq!(planned.modules, vec!["bi", "communication", "platform"]);
    assert_eq!(planned.iat, 3);
    assert_eq!(planned.exp, 10 * DAY as u64);
    assert_eq!(planned.module_expires_at.get("communication"), Some(&(10 * DAY)));
    assert_eq!(planned.module_expires_at.get("bi"), Some(&(4 * DAY)));
    assert_eq!(planned.module_expires_at.get("platform"), None);
    assert_eq!(planned.module_titles.get("platform"), Some(&s("平台")));
    assert_eq!(planned.module_titles.get("communication"), Some(&s("通讯")));
    assert_eq!(planned.ai_employees.len(), 1);
    let hired = &planned.ai_employees[0];
    assert_eq!(hired.expires_at, 10 * DAY);
    assert_eq!(hired.title, "助手");
    assert_eq!(hired.template_version, "2.0.1");
    assert_eq!(hired.system_prompt, "prompt");
    let ids: Vec<&str> = hired.skills.iter().map(|x| x.id.as_str()).collect();
    assert_eq!(ids, vec!["skill_1", "skill_2"]);
    assert_eq!(hired.skills[0].instructions, "do it");
    assert_eq!(planned.iss, "yaya-operation-center");
    assert_eq!(planned.aud, "yaya-low-code");
}

#[test]
fn license_flaws_are_told() {
    let refuse = |request: &IssueLicenseRequest, orders: Vec<OrderRecord>| {
        let refused = issue_license(request, &orders, &vec![], &vec![])
            .unwrap()
            .err()
            .unwrap();
        (refused.status, refused.message)
    };
    let platform = || item("platform", None, "平台", Some(10));
    let blank = IssueLicenseRequest { order_id: s(" ") };
    assert_eq!(refuse(&blank, vec![]), (400, s("orderId 不能为空")));
    assert_eq!(refuse(&request(), vec![]), (404, s("订单不存在")));
    assert_eq!(
        refuse(&request(), vec![order("pending_payment", vec![platform()])]),
        (400, s("只有已回款订单可以签发许可证"))
    );
    let mut licensed = order("paid", vec![platform()]);
    licensed.license_id = Some(s("lic_1"));
    assert_eq!(refuse(&request(), vec![licensed]), (409, s("该订单已经签发许可证")));
    for days in [None, Some(0)] {
        assert_eq!(
            refuse(&request(), vec![order("paid", vec![item("platform", None, "平台", days)])]),
            (400, s("订单商品“平台”缺少有效的授权天数"))
        );
    }
    assert_eq!(
        refuse(
            &request(),
            vec![order("paid", vec![platform(), item("module", Some(" "), "m", Some(1))])]
        ),
        (400, s("订单模块缺少 referenceId"))
    );
    assert_eq!(
        refuse(
            &request(),
            vec![order("paid", vec![platform(), item("ai_employee", None, "e", Some(1))])]
        ),
        (400, s("订单 AI 员工缺少 referenceId"))
    );
    assert_eq!(
        refuse(&request(), vec![order("paid", vec![item("module", Some("bi"), "m", Some(1))])]),
        (400, s("订单必须包含低代码平台授权商品"))
    );
    assert_eq!(
        refuse(
            &request(),
            vec![order("paid", vec![platform(), item("ai_employee", Some("emp_9"), "e", Some(1))])]
        ),
        (400, s("订单中的 AI 员工不存在：emp_9"))
    );
}

#[test]
fn issued_license_is_dated_now() {
    let orders = vec![order("paid", vec![item("platform", None, "平台", Some(10))])];
    let issued = issue_license(&request(), &orders, &vec![], &vec![])
        .unwrap()
        .ok()
        .unwrap();
    assert!(issued.license_id.starts_with("lic_"));
    assert_eq!(issued.license_id.len(), 36);
    let days = issued.exp - issued.iat;
    assert!(10 * DAY as u64 <= days && days <= 10 * DAY as u64 + 1);
}

#[test]
fn calendar_has_an_end() {
    let items = vec![item("platform", None, "平台", Some(u32::MAX))];
    assert!(!calendar_reaches(&items, 0));
    assert!(calendar_reaches(&vec![item("platform", None, "平台", Some(3650))], 0));
    let orders = vec![order("paid", items)];
    assert!(issue_license(&request(), &orders, &vec![], &vec![]).is_none());
    let at = |orders: &Vec<OrderRecord>, second: i64| {
        issue_license_at(&request(), orders, &vec![], &vec![], s("lic_9"), 3, second)
    };
    assert!(at(&orders, 0).is_none());
    let orders = vec![order("paid", vec![item("platform", None, "平台", Some(10))])];
    let last = 8_210_266_876_799;
    assert!(at(&orders, last).is_none());
    let issued = at(&orders, last - 10 * DAY).unwrap().ok().unwrap();
    assert_eq!((issued.license_id.as_str(), issued.iat), ("lic_9", 3));
    assert_eq!(issued.exp, last as u64);
}

#[test]
fn order_without_platform_is_refused_at_any_time() {
    let items = vec![item("service", None, "上门", None), item("module", Some("bi"), "m", Some(1))];
    let orders = vec![order("paid", items)];
    for second in [0, 8_210_266_876_799] {
        let refused =
            issue_license_at(&request(), &orders, &vec![], &vec![], s("lic_9"), 3, second)
                .unwrap()
                .err()
                .unwrap();
        assert_eq!(
            (refused.status, refused.message.as_str()),
            (400, "订单必须包含低代码平台授权商品")
        );
    }
}

#[test]
fn issued_license_is_recorded() {
    let issued = license_issued(&claims("lic_1"), s("token"));
    assert_eq!(issued.record.license, "token");
    assert_eq!(issued.record.license_id, "lic_1");
    assert_eq!(issued.record.order_id, Some(s("ord_1")));
    assert_eq!(issued.record.linkage_status, default_linked_status());
    assert_eq!(issued.record.platform_status, default_unactivated_status());
    assert_eq!(issued.record.expires_at, 10 * DAY);
    assert_eq!(
        issued.record.module_statuses.get("communication"),
        Some(&s("unactivated"))
    );
    assert_eq!(issued.response.license, "token");
    assert_eq!(issued.response.order_id, Some(s("ord_1")));
    assert_eq!(issued.response.platform_status, "unactivated");
    assert_eq!(accepted_issuers(), vec!["yaya-operation-center", "yaya-license-center"]);
    assert_eq!(accepted_audience(), "yaya-low-code");
}

#[test]
fn order_is_licensed_once() {
    let mut records = vec![];
    let mut orders = vec![order("paid", vec![])];
    let license = || license_issued(&claims("lic_1"), s("token")).record;
    assert!(insert_issued_license(license(), &mut records, &mut orders).is_ok());
    assert_eq!(orders[0].status, "fulfilled");
    assert_eq!(orders[0].license_id, Some(s("lic_1")));
    assert_eq!(records.len(), 1);
    let refused = insert_issued_license(license(), &mut records, &mut orders).err().unwrap();
    assert_eq!(
        (refused.status, refused.message.as_str()),
        (500, "许可证和订单状态保存失败")
    );
    assert_eq!(records.len(), 1);
}

#[test]
fn shown_license_follows_the_time() {
    let mut license = record("lic_1", "ord_1", 0, "running");
    license.expires_at = 100;
    license.modules = vec![s("platform"), s("communication"), s("bi")];
    license.module_expires_at = map(&[("communication", 50)]);
    license.module_statuses = names(&[("communication", "running")]);
    license.ai_employees = vec![employee("emp_1", 60), employee("emp_2", 40)];
    assert_eq!(module_expiry(&license, "communication"), 50);
    assert_eq!(module_expiry(&license, "bi"), 100);
    let shown = license_view_at(&license, 49);
    assert_eq!(shown.platform_status, "running");
    assert_eq!(shown.module_statuses.get("platform"), Some(&s("running")));
    assert_eq!(shown.module_statuses.get("communication"), Some(&s("running")));
    assert_eq!(shown.module_statuses.get("bi"), Some(&s("unactivated")));
    assert_eq!(shown.ai_employee_statuses.get("emp_1"), Some(&s("running")));
    assert_eq!(shown.ai_employee_statuses.get("emp_2"), Some(&s("expired")));
    assert_eq!(shown.module_titles.get("communication"), Some(&s("通讯模型")));
    let shown = license_view_at(&license, 50);
    assert_eq!(shown.module_statuses.get("communication"), Some(&s("expired")));
    let shown = license_view_at(&license, 100);
    assert_eq!(shown.platform_status, "expired");
    assert_eq!(shown.module_statuses.get("bi"), Some(&s("expired")));
    assert_eq!(shown.ai_employee_statuses.get("emp_1"), Some(&s("expired")));
    license.platform_status = s("destroyed");
    let shown = license_view_at(&license, 100);
    assert_eq!(shown.platform_status, "destroyed");
    assert_eq!(shown.module_statuses.get("bi"), Some(&s("destroyed")));
    assert_eq!(shown.ai_employee_statuses.get("emp_2"), Some(&s("destroyed")));
}

#[test]
fn licenses_are_listed_as_they_are_shown() {
    let records = vec![
        record("lic_1", "ord_1", 0, "running"),
        record("lic_2", "ord_2", 0, "destroyed"),
    ];
    let newest = record("lic_3", "ord_3", 1, "running");
    let listed = list_licenses(&vec![record("lic_1", "ord_1", 0, "running"), newest]);
    assert_eq!(listed[0].license_id, "lic_3");
    assert_eq!(listed[1].license_id, "lic_1");
    let shown = list_licenses(&records);
    assert_eq!(shown.len(), 2);
    assert_eq!(shown[0].license_id, "lic_1");
    assert_eq!(shown[0].platform_status, "running");
    assert_eq!(shown[1].platform_status, "destroyed");
    assert_eq!(license_view(&records[0]).license_id, "lic_1");
    assert_eq!(module_title("platform"), "低代码平台");
    assert_eq!(module_title("bi"), "bi");
}

#[test]
fn activation_runs_the_modules() {
    let mut license = record("lic_1", "ord_1", 2, "unactivated");
    license.module_expires_at = map(&[("communication", 5)]);
    let mut records = vec![record("lic_0", "ord_0", 1, "running"), license];
    let status = activate_license_at("lic_1", &Some(claims("lic_1")), &mut records, 5)
        .ok()
        .unwrap();
    assert!(status.valid);
    assert_eq!(records[1].platform_status, "running");
    assert_eq!(records[1].module_statuses.get("platform"), Some(&s("running")));
    assert_eq!(records[1].module_statuses.get("communication"), Some(&s("expired")));
    assert_eq!(records[0].platform_status, "destroyed");
    let refused = activate_license("lic_0", &Some(claims("lic_0")), &mut records).err().unwrap();
    assert_eq!((refused.status, refused.message.as_str()), (403, "许可证已销毁"));
}

#[test]
fn activation_flaws_are_told() {
    let refuse = |id: &str, claims: &Option<LicenseClaims>, records: &mut Vec<LicenseRecord>| {
        let refused = activate_license(id, claims, records).err().unwrap();
        (refused.status, refused.message)
    };
    let mut legacy = record("lic_1", "ord_1", 2, "unactivated");
    legacy.linkage_status = s("legacy_unlinked");
    assert_eq!(
        refuse("lic_1", &None, &mut vec![]),
        (401, s("许可证无效或已过期"))
    );
    assert_eq!(
        refuse("lic_1", &Some(claims("lic_2")), &mut vec![]),
        (401, s("许可证无效或已过期"))
    );
    assert_eq!(
        refuse("lic_1", &Some(claims("lic_1")), &mut vec![]),
        (404, s("许可证不存在"))
    );
    assert_eq!(
        refuse("lic_1", &Some(claims("lic_1")), &mut vec![legacy]),
        (403, s("历史无订单许可证仅支持只读查看"))
    );
    let mut records = vec![
        record("lic_1", "ord_1", 2, "unactivated"),
        record("lic_2", "ord_2", 3, "unactivated"),
    ];
    assert_eq!(
        refuse("lic_1", &Some(claims("lic_1")), &mut records),
        (409, s("当前签名不是该授权主体的最新许可证，请更新后再激活"))
    );
    assert_eq!(records[0].platform_status, "unactivated");
}

#[test]
fn newer_license_is_found() {
    let mut expired = record("lic_3", "ord_3", 9, "running");
    expired.expires_at = 10;
    let records = vec![
        record("lic_1", "ord_1", 1, "running"),
        record("lic_2", "ord_2", 2, "unactivated"),
        expired,
    ];
    let status = license_status_at("lic_1", &Some(claims("lic_1")), &records, 10);
    assert!(status.valid);
    assert_eq!(status.latest_license_id, Some(s("lic_2")));
    assert_eq!(status.latest_license, Some(s("signed-token")));
    assert_eq!(status.latest_issued_at, Some(2));
    let status = license_status("lic_2", &Some(claims("lic_2")), &records);
    assert!(status.valid);
    assert_eq!(status.latest_license_id, None);
    assert!(!license_status("lic_1", &None, &records).valid);
    assert!(!license_status("lic_9", &Some(claims("lic_9")), &records).valid);
    assert_eq!(
        newest_usable(&records, "cus_1", 9).map(|l| l.license_id.as_str()),
        Some("lic_3")
    );
    assert!(newest_usable(&records, "cus_2", 9).is_none());
}

#[test]
fn destroyed_license_is_invalid_for_good() {
    let mut records = vec![record("lic_1", "ord_1", 1, "running")];
    let status = destroy_license_by_id("lic_1", &mut records).ok().unwrap();
    assert!(!status.valid);
    assert_eq!(records[0].platform_status, "destroyed");
    assert_eq!(records[0].module_statuses.get("platform"), Some(&s("destroyed")));
    assert!(!license_status("lic_1", &Some(claims("lic_1")), &records).valid);
    let refused = destroy_license_by_id("lic_2", &mut records).err().unwrap();
    assert_eq!((refused.status, refused.message.as_str()), (404, "许可证不存在"));
    records[0].linkage_status = s("legacy_unlinked");
    let refused = destroy_license_by_id("lic_1", &mut records).err().unwrap();
    assert_eq!(refused.status, 403);
    assert_eq!(destroy(&records[0]).platform_status, "destroyed");
    assert!(LicenseStatus::simple(true).valid);
    assert!(LicenseStatus::simple(false).latest_license.is_none());
}

#[test]
fn market_needs_a_license() {
    let refused = require_license(&None, None).err().unwrap();
    assert_eq!((refused.status, refused.message.as_str()), (401, "缺少平台许可证"));
    let refused = require_license(&Some(s("Bearer x")), None).err().unwrap();
    assert_eq!(
        (refused.status, refused.message.as_str()),
        (401, "平台许可证无效或已过期")
    );
    let accepted = require_license(&Some(s("Bearer x")), Some(claims("lic_1"))).ok().unwrap();
    assert_eq!(accepted.license_id, "lic_1");
}

#[test]
fn owned_package_is_the_latest() {
    let products = vec![product("emp_1", "active")];
    let skills = vec![skill("skill_1"), skill("skill_2")];
    let package = owned_package("emp_1", &claims("lic_1"), &products, &skills, DAY).ok().unwrap();
    assert_eq!(package.expires_at, 3 * DAY);
    assert_eq!(package.template_version, "2.0.1");
    assert_eq!(package.skills.len(), 2);
    assert_eq!(package.allowed_tools, vec!["list_apps"]);
    assert!(find_owned(&claims("lic_1").ai_employees, "emp_1", 3 * DAY).is_none());
    let refused = owned_package("emp_1", &claims("lic_1"), &products, &skills, 3 * DAY)
        .err()
        .unwrap();
    assert_eq!(
        (refused.status, refused.message.as_str()),
        (403, "当前许可证未包含该 AI 员工")
    );
    let refused = owned_package("emp_2", &claims("lic_1"), &products, &skills, 0).err().unwrap();
    assert_eq!(
        (refused.status, refused.message.as_str()),
        (404, "AI 员工商品不存在或未上架")
    );
    assert!(get_owned_ai_employee_package("emp_1", &claims("lic_1"), &products, &skills).is_err());
}

#[test]
fn owned_skill_belongs_to_the_employee() {
    let products = vec![product("emp_1", "active")];
    let skills = vec![skill("skill_1")];
    let found = owned_skill("emp_1", "skill_1", &claims("lic_1"), &products, &skills, 0)
        .ok()
        .unwrap();
    assert_eq!(found.id, "skill_1");
    let refused = owned_skill("emp_1", "skill_9", &claims("lic_1"), &products, &skills, 0)
        .err()
        .unwrap();
    assert_eq!(
        (refused.status, refused.message.as_str()),
        (403, "该 Skill 不属于当前 AI 员工")
    );
    let refused = owned_skill("emp_1", "skill_gone", &claims("lic_1"), &products, &skills, 0)
        .err()
        .unwrap();
    assert_eq!(
        (refused.status, refused.message.as_str()),
        (404, "AI 员工 Skill 不存在")
    );
    assert!(download_owned_ai_employee_skill_archive(
        "emp_1",
        "skill_1",
        &claims("lic_1"),
        &products,
        &skills
    )
    .is_err());
}

#[test]
fn archives_have_file_names() {
    assert_eq!(
        archive_disposition("emp\"_1", "quote").unwrap(),
        "attachment; filename=\"emp_1-quote.zip\""
    );
    let refused = archive_disposition("emp\n1", "quote").err().unwrap();
    assert_eq!((refused.status, refused.message.as_str()), (500, "Skill 文件名无效"));
}

#[test]
fn purchase_carries_everything_over() {
    let items = cumulative_entitlement_items(&claims("lic_1"), DAY, &product("emp_1", "active"));
    let kinds: Vec<(&str, &str, u32)> = items
        .iter()
        .map(|i| {
            (
                i.kind.as_str(),
                i.reference_id.as_deref().unwrap(),
                i.entitlement_days.unwrap(),
            )
        })
        .collect();
    assert_eq!(
        kinds,
        vec![
            ("platform", "platform", 9),
            ("module", "communication", 4),
            ("ai_employee", "emp_2", 2)
        ]
    );
    assert_eq!(items[0].title, "平台版");
    assert_eq!(items[1].title, "通讯模型");
    assert!(items.iter().all(|i| i.unit_price_cents == 0 && i.quantity == 1));
}

fn ids() -> PurchaseIds {
    PurchaseIds {
        order_id: s("ord_9"),
        order_no: s("YY20260101-000000"),
        transaction_id: s("txn_9"),
        reference: s("TEST-1"),
    }
}

#[test]
fn purchase_is_paid_in_full() {
    let mut held = record("lic_1", "ord_1", 1, "running");
    held.expires_at = 10 * DAY;
    let records = vec![held];
    let bought = complete_purchase(
        " emp_1 ",
        &claims("lic_1"),
        &Some(claims("lic_1")),
        &records,
        &vec![customer("active")],
        &vec![product("emp_1", "active")],
        ids(),
        DAY,
    )
    .ok()
    .unwrap();
    assert_eq!(bought.order.status, "paid");
    assert_eq!(bought.order.total_amount_cents, 500);
    assert_eq!(bought.order.received_amount_cents, 500);
    assert_eq!(bought.order.deployment_type, "local");
    assert_eq!(bought.order.notes, "AI 员工市场测试支付：报价助手");
    assert_eq!(bought.transaction.amount_cents, 500);
    assert_eq!(bought.transaction.method, "test");
    assert_eq!(bought.transaction.reference, "TEST-1");
    assert_eq!(bought.order.items.len(), 4);
    let last = &bought.order.items[3];
    assert_eq!(last.reference_id, Some(s("emp_1")));
    assert_eq!(last.unit_price_cents, 500);
    assert_eq!(last.entitlement_days, Some(2 + 365));
    let response = purchase_response(&bought, "lic_9");
    assert_eq!(response.order_id, "ord_9");
    assert_eq!(response.license_id, "lic_9");
    assert_eq!(response.status, "fulfilled");
}

#[test]
fn purchase_flaws_are_told() {
    let mut held = record("lic_1", "ord_1", 1, "running");
    held.expires_at = 10 * DAY;
    let records = vec![held];
    let refuse = |records: &Vec<LicenseRecord>,
                  customers: &Vec<CustomerRecord>,
                  products: &Vec<AiEmployeeProduct>,
                  latest: &Option<LicenseClaims>| {
        let refused = test_purchase_ai_employee(
            "emp_1",
            &claims("lic_1"),
            latest,
            records,
            customers,
            products,
            DAY,
        )
        .err()
        .unwrap();
        (refused.status, refused.message)
    };
    let active = vec![customer("active")];
    let on_sale = vec![product("emp_1", "active")];
    let latest = Some(claims("lic_1"));
    assert_eq!(
        refuse(&vec![], &active, &on_sale, &latest),
        (401, s("平台许可证已失效"))
    );
    assert_eq!(
        refuse(&records, &vec![customer("inactive")], &on_sale, &latest),
        (403, s("许可证主体对应的客户不存在或已停用"))
    );
    assert_eq!(
        refuse(&records, &active, &vec![product("emp_1", "inactive")], &latest),
        (404, s("AI 员工商品不存在或未上架"))
    );
    let mut free = product("emp_1", "active");
    free.price_cents = 0;
    assert_eq!(
        refuse(&records, &active, &vec![free], &latest),
        (400, s("测试购买要求商品价格大于 0"))
    );
    assert_eq!(
        refuse(&records, &active, &on_sale, &None),
        (409, s("客户最新许可证无效，无法生成累计权益"))
    );
    let mut odd = product("emp_1", "active");
    odd.billing_cycle = s("week");
    assert_eq!(
        refuse(&records, &active, &vec![odd], &latest),
        (400, s("AI 员工计费周期无效"))
    );
}

#[test]
fn purchase_builds_on_the_newest_license() {
    let mut newer = record("lic_2", "ord_2", 5, "unactivated");
    newer.expires_at = 10 * DAY;
    let mut held = record("lic_1", "ord_1", 1, "running");
    held.expires_at = 10 * DAY;
    let found = purchase_license(
        "emp_1",
        &claims("lic_1"),
        &vec![held, newer],
        &vec![customer("active")],
        &vec![product("emp_1", "active")],
        DAY,
    )
    .ok()
    .unwrap();
    assert_eq!(found.license_id, "lic_2");
}

#[test]
fn employee_in_use_is_kept() {
    let mut first = record("lic_1", "ord_1", 1, "running");
    first.ai_employees = vec![employee("emp_1", 300)];
    first.customer_name_snapshot = s(" ");
    let mut second = record("lic_2", "ord_2", 1, "unactivated");
    second.ai_employees = vec![employee("emp_1", 200)];
    let mut gone = record("lic_3", "ord_3", 1, "destroyed");
    gone.ai_employees = vec![employee("emp_1", 400)];
    let licenses = vec![first, second, gone];
    let checked = ai_employee_deletion_eligibility_from_licenses(&licenses, "emp_1", 100);
    assert!(!checked.can_delete);
    let blockers: Vec<(&str, &str)> = checked
        .blockers
        .iter()
        .map(|b| (b.license_id.as_str(), b.customer_name.as_str()))
        .collect();
    assert_eq!(blockers, vec![("lic_2", "客户一"), ("lic_1", "cus_1")]);
    assert!(ai_employee_deletion_eligibility_from_licenses(&licenses, "emp_1", 300).can_delete);
    assert!(ai_employee_deletion_eligibility(&licenses, "emp_1").can_delete);
    let products = vec![product("emp_1", "active")];
    let refused = delete_ai_employee_product(&licenses, &products, "emp_1", 100).err().unwrap();
    assert_eq!(
        (refused.status, refused.message.as_str()),
        (409, "该 AI 员工仍存在有效客户授权，暂不能删除")
    );
}

#[test]
fn employee_out_of_use_is_deleted_with_its_picture() {
    let mut pictured = product("emp_1", "active");
    pictured.avatar_url = Some(s("emp_1.webp"));
    let deleted = delete_ai_employee_product(&vec![], &vec![pictured], "emp_1", 100)
        .ok()
        .unwrap();
    assert_eq!(deleted.picture, Some(s("emp_1.webp")));
    assert!(deleted.eligibility.can_delete);
    let mut outside = product("emp_1", "active");
    outside.avatar_url = Some(s("../emp_1.webp"));
    let deleted = delete_ai_employee_product(&vec![], &vec![outside], "emp_1", 100)
        .ok()
        .unwrap();
    assert_eq!(deleted.picture, None);
    let refused = delete_ai_employee_product(&vec![], &vec![], "emp_1", 100).err().unwrap();
    assert_eq!((refused.status, refused.message.as_str()), (404, "AI 员工不存在"));
    let refused = get_ai_employee_deletion_eligibility(&vec![], &vec![], "emp_1").err().unwrap();
    assert_eq!((refused.status, refused.message.as_str()), (404, "AI 员工不存在"));
}

#[test]
fn prevents_deleting_skill_referenced_by_ai_employee() {
    let mut hired = product("emp_1", "active");
    hired.skill_ids = vec![s("skill_1")];
    let products = vec![hired];
    let eligibility = operation_skill_deletion_eligibility(&products, "skill_1");
    assert!(!eligibility.can_delete);
    assert_eq!(eligibility.blockers.len(), 1);
    assert_eq!(eligibility.blockers[0].employee_id, "emp_1");
    assert!(operation_skill_deletion_eligibility(&products, "skill_other").can_delete);
}

#[test]
fn skill_in_use_is_kept() {
    let products = vec![product("emp_1", "active")];
    let skills = vec![skill("skill_1"), skill("skill_9")];
    let refused = delete_operation_skill(&products, &skills, " skill_1 ").err().unwrap();
    assert_eq!(
        (refused.status, refused.message.as_str()),
        (409, "该 Skill 仍被 AI 员工引用，暂不能删除")
    );
    let deleted = delete_operation_skill(&products, &skills, "skill_9").ok().unwrap();
    assert_eq!(deleted.package, Some(s("quote")));
    let refused = delete_operation_skill(&products, &skills, "skill_0").err().unwrap();
    assert_eq!((refused.status, refused.message.as_str()), (404, "Skill 不存在"));
    let refused = get_operation_skill_deletion_eligibility(&products, &skills, "skill_0")
        .err()
        .unwrap();
    assert_eq!((refused.status, refused.message.as_str()), (404, "Skill 不存在"));
    assert!(get_operation_skill_deletion_eligibility(&products, &skills, "skill_9")
        .ok()
        .unwrap()
        .can_delete);
}

fn row(id: &str, order_id: Option<&str>, issued_at: i64) -> LicenseRow {
    LicenseRow {
        license_id: s(id),
        subject: s("历史客户"),
        order_id: order_id.map(s),
        issued_at,
    }
}

#[test]
fn each_order_keeps_its_newest_license() {
    let rows = vec![
        row("lic_a", Some("ord_1"), 1),
        row("lic_b", Some("ord_1"), 2),
        row("lic_c", Some("ord_1"), 2),
        row("lic_d", Some("ord_9"), 1),
        row("lic_e", None, 1),
        row("lic_f", None, 1),
        row("lic_g", Some("ord_2"), 1),
    ];
    let orders = vec![
        OrderOwner {
            order_id: s("ord_1"),
            customer_id: s("cus_1"),
        },
        OrderOwner {
            order_id: s("ord_2"),
            customer_id: s("cus_9"),
        },
    ];
    let customers = vec![AuditLogCustomer {
        customer_id: s("cus_1"),
        customer_name: s("客户一"),
    }];
    let placed = relate_licenses(&rows, &orders, &customers, &vec![s("lic_f")]);
    let told: Vec<String> = placed
        .iter()
        .map(|p| match p {
            Placement::Linked(name) => format!("linked {name}"),
            Placement::Unlinked(name) => format!("unlinked {name}"),
            Placement::Known => s("known"),
        })
        .collect();
    assert_eq!(
        told,
        vec![
            "unlinked 历史客户",
            "unlinked 历史客户",
            "linked 客户一",
            "unlinked 历史客户",
            "unlinked 历史客户",
            "known",
            "linked 历史客户"
        ]
    );
    let kept = vec![row("lic_c", Some("ord_1"), 2), row("lic_g", Some("ord_2"), 1)];
    let again = relate_licenses(&kept, &orders, &customers, &vec![]);
    assert!(again.iter().all(|p| matches!(p, Placement::Linked(_))));
}

#[test]
fn licenses_from_files_are_told_apart() {
    let mut unlinked = record("lic_1", "", 1, "running");
    unlinked.order_id = None;
    unlinked.customer_name_snapshot = s("");
    unlinked.module_statuses = names(&[("platform", "running"), ("extra", "running")]);
    let linked = record("lic_2", "ord_2", 1, "running");
    let stored = import_legacy_licenses(vec![unlinked, linked], &vec![s("lic_1")]);
    assert_eq!(stored.len(), 2);
    assert_eq!(stored[0].linkage_status, "legacy_unlinked");
    assert_eq!(stored[0].customer_name_snapshot, "cus_1");
    assert_eq!(stored[0].platform_status, "destroyed");
    assert_eq!(stored[0].module_statuses.get("platform"), Some(&s("destroyed")));
    assert_eq!(stored[0].module_statuses.get("extra"), None);
    assert_eq!(stored[1].linkage_status, "linked");
    assert_eq!(stored[1].platform_status, "running");
}

#[test]
fn files_are_imported_at_the_first_start_only() {
    let found = || vec![record("lic_2", "ord_2", 1, "running")];
    let first = import_at_first_start(&vec![], found(), &vec![s("lic_2")]);
    assert_eq!(first.len(), 1);
    assert_eq!(first[0].platform_status, "destroyed");
    let known = vec![record("lic_1", "ord_1", 1, "running")];
    assert!(import_at_first_start(&known, found(), &vec![]).is_empty());
}
