use operation_center::audit::{
    attribute, audit_customer_query, audit_entry_at, audit_log_limit, audit_request,
    backfill_audit_log_customers, endpoint_title, is_operation_frontend_request, list_audit_logs,
    prune_plan, resolve_audit_log_customer, response_is_json, sanitize_response_body, show,
    shorten_response, AuditCustomerQuery, AuditLogCustomer, AuditLogRecord, AuditedRequest,
    LicenseOwner, OrderOwner,
};
use operation_center::json::redact_json_value;

fn s(text: &str) -> String {
    text.to_string()
}

fn asked(method: &str, path: &str, status_code: u16) -> AuditedRequest {
    AuditedRequest {
        method: s(method),
        path: s(path),
        status_code,
        ip_address: s("10.0.0.1"),
        elapsed_ms: 12,
        user_agent: Some(s("curl")),
        json_body: None,
    }
}

fn log(id: i64, path: Option<&str>, method: Option<&str>, title: &str) -> AuditLogRecord {
    AuditLogRecord {
        id,
        created_at: 1,
        level: s("info"),
        source: s("request"),
        endpoint_title: s(title),
        message: s(""),
        ip_address: None,
        method: method.map(s),
        path: path.map(s),
        status_code: None,
        duration_ms: None,
        user_agent: None,
        response_body: None,
        customer_id: None,
        customer_name: s(""),
    }
}

fn customers() -> Vec<AuditLogCustomer> {
    vec![AuditLogCustomer {
        customer_id: s("cus_1"),
        customer_name: s("当前客户名"),
    }]
}

fn orders() -> Vec<OrderOwner> {
    vec![OrderOwner {
        order_id: s("ord_1"),
        customer_id: s("cus_1"),
    }]
}

fn licenses() -> Vec<LicenseOwner> {
    vec![LicenseOwner {
        license_id: s("lic_1"),
        subject: s("cus_1"),
        customer_name_snapshot: s("签发时客户名"),
    }]
}

#[test]
fn audit_response_redacts_sensitive_fields() {
    let body = br#"{"message":"ok","data":{"license":"signed-token","licenseId":"lic_1","apiKey":"secret"}}"#;
    let sanitized = sanitize_response_body(body).expect("JSON response");
    assert!(!sanitized.contains("signed-token"));
    assert!(!sanitized.contains("\"secret\""));
    assert!(sanitized.contains("lic_1"));
    assert!(sanitized.contains("[REDACTED]"));
}

#[test]
fn kept_answers_are_json_of_bounded_size() {
    assert_eq!(sanitize_response_body(b"no json"), None);
    assert_eq!(sanitize_response_body(b"[1]"), Some(s("[\n  1\n]")));
    let body = format!("{:?}", "a".repeat(40_000));
    let kept = sanitize_response_body(body.as_bytes()).unwrap();
    assert_eq!(kept.len(), 32_768);
    assert!(kept.ends_with("\n... [响应已截断]"));
}

#[test]
fn audit_ignores_operation_frontend_requests() {
    let origin = Some(s("http://localhost:8778"));
    assert!(is_operation_frontend_request(&origin, &None, &None, "/api/orders"));
    assert!(is_operation_frontend_request(&None, &None, &None, "/api/logs"));
    assert!(!is_operation_frontend_request(&None, &None, &None, "/healthz"));
}

#[test]
fn configured_origin_is_the_frontend_too() {
    let configured = Some(s("https://ops.example.com"));
    let referer = Some(s("https://ops.example.com/orders"));
    assert!(is_operation_frontend_request(&None, &referer, &configured, "/api/orders"));
    assert!(!is_operation_frontend_request(&None, &referer, &None, "/api/orders"));
    assert!(!is_operation_frontend_request(&None, &referer, &Some(s("  ")), "/api/orders"));
    assert!(is_operation_frontend_request(
        &Some(s("http://127.0.0.1:8778")),
        &None,
        &Some(s("  ")),
        "/api/orders"
    ));
}

#[test]
fn audit_customer_resolution_uses_license_snapshots_and_order_relations() {
    let license_customer = resolve_audit_log_customer(
        &Some(s("/api/licenses/lic_1/status")),
        &customers(),
        &orders(),
        &licenses(),
    )
    .expect("license customer");
    assert_eq!(license_customer.customer_id, "cus_1");
    assert_eq!(license_customer.customer_name, "签发时客户名");

    let order_customer = resolve_audit_log_customer(
        &Some(s("/api/orders/ord_1/payment")),
        &customers(),
        &orders(),
        &licenses(),
    )
    .expect("order customer");
    assert_eq!(order_customer.customer_name, "当前客户名");
    assert!(
        resolve_audit_log_customer(&Some(s("/healthz")), &customers(), &orders(), &licenses())
            .is_none()
    );
}

#[test]
fn blank_license_names_fall_back_to_the_subject() {
    let mut blank = licenses();
    blank[0].customer_name_snapshot = s("  ");
    let found = resolve_audit_log_customer(
        &Some(s("/api/licenses/lic_1")),
        &customers(),
        &orders(),
        &blank,
    )
    .unwrap();
    assert_eq!(found.customer_name, "cus_1");
    assert!(resolve_audit_log_customer(&None, &customers(), &orders(), &blank).is_none());
    assert!(
        resolve_audit_log_customer(&Some(s("/api/orders/ord_2")), &customers(), &orders(), &blank)
            .is_none()
    );
}

#[test]
fn customer_query_reads_the_third_part() {
    let query = |path: &str| audit_customer_query(&Some(s(path)));
    assert!(matches!(query("/api/customers/cus_1/"), AuditCustomerQuery::Customer(id) if id == "cus_1"));
    assert!(matches!(query("/api/orders/ord_1"), AuditCustomerQuery::Order(id) if id == "ord_1"));
    assert!(matches!(query("/api/licenses/lic_1/x"), AuditCustomerQuery::License(id) if id == "lic_1"));
    assert!(matches!(query("/api/customers"), AuditCustomerQuery::Nobody));
    assert!(matches!(query("/v1/customers/cus_1"), AuditCustomerQuery::Nobody));
}

#[test]
fn endpoint_titles_are_told() {
    assert_eq!(endpoint_title("/healthz", "GET"), "服务健康检查");
    assert_eq!(endpoint_title("/api/customers", "GET"), "客户列表");
    assert_eq!(endpoint_title("/api/customers", "POST"), "创建客户");
    assert_eq!(endpoint_title("/api/licenses", "POST"), "签发许可证");
    assert_eq!(endpoint_title("/api/licenses/lic_1/activate", "POST"), "许可证激活");
    assert_eq!(endpoint_title("/api/licenses/lic_1/revoke", "POST"), "运营接口");
    assert_eq!(endpoint_title("/api/orders/ord_1/payment", "POST"), "登记订单回款");
    assert_eq!(endpoint_title("/api/orders/ord_1", "PUT"), "编辑订单");
    assert_eq!(
        endpoint_title("/api/market/ai-employees/a/test-purchase", "POST"),
        "AI 员工测试购买"
    );
    assert_eq!(endpoint_title("/api/skills/import", "POST"), "导入 Skill");
    assert_eq!(endpoint_title("/api/skills/a/status", "POST"), "Skill 状态");
    assert_eq!(endpoint_title("/api/unknown", "GET"), "运营接口");
}

#[test]
fn entries_say_what_was_asked() {
    let entry = audit_entry_at(&asked("GET", "/api/orders", 200), 77);
    assert_eq!(entry.level, "debug");
    assert_eq!(entry.created_at, 77);
    assert_eq!(entry.message, "GET /api/orders -> 200");
    assert_eq!(entry.endpoint_title, "订单列表");
    assert_eq!(entry.duration_ms, Some(12));
    assert_eq!(entry.customer_name, "无客户");
    assert_eq!(entry.status_code, Some(200));
    assert_eq!(audit_entry_at(&asked("POST", "/api/orders", 200), 1).level, "info");
    assert_eq!(audit_entry_at(&asked("GET", "/api/orders", 404), 1).level, "warning");
    assert_eq!(audit_entry_at(&asked("GET", "/api/orders", 500), 1).level, "error");
}

#[test]
fn entries_keep_json_answers() {
    let mut request = asked("GET", "/api/orders", 200);
    request.json_body = Some(br#"{"token":"x"}"#.to_vec());
    request.elapsed_ms = u128::MAX;
    let entry = audit_request(&request);
    assert_eq!(entry.response_body, Some(s("{\n  \"token\": \"[REDACTED]\"\n}")));
    assert_eq!(entry.duration_ms, Some(u64::MAX));
    assert!(entry.created_at > 0);
    request.json_body = Some(b"not json".to_vec());
    assert_eq!(audit_request(&request).response_body, None);
}

#[test]
fn json_answers_are_told_by_their_type() {
    assert!(response_is_json(&Some(s("application/json; charset=utf-8"))));
    assert!(!response_is_json(&Some(s("text/html"))));
    assert!(!response_is_json(&None));
}

#[test]
fn redaction_reaches_every_depth_and_keeps_the_rest() {
    let value: serde_json::Value = serde_json::from_str(
        r#"{"PassWord":{"a":1},"list":[{"Cookie":"c","n":1.50},null,true],"tokens":"kept"}"#,
    )
    .unwrap();
    let clean = redact_json_value(value);
    assert_eq!(
        clean.to_string(),
        r#"{"PassWord":"[REDACTED]","list":[{"Cookie":"[REDACTED]","n":1.5},null,true],"tokens":"kept"}"#
    );
    let again = redact_json_value(clean.clone());
    assert_eq!(again, clean);
    let unordered: serde_json::Value = serde_json::from_str(r#"{"b":1,"a":{"d":2,"c":3}}"#).unwrap();
    assert_eq!(
        redact_json_value(unordered).to_string(),
        r#"{"a":{"c":3,"d":2},"b":1}"#
    );
}

#[test]
fn long_answers_are_shortened() {
    let short = "a".repeat(32_768);
    assert_eq!(shorten_response(short.clone()), short);
    let long = "a".repeat(32_769);
    let kept = shorten_response(long);
    assert_eq!(kept, format!("{}\n... [响应已截断]", "a".repeat(32_746)));
    assert_eq!(kept.len(), 32_768);
    let wide = "中".repeat(20_000);
    let kept = shorten_response(wide);
    assert_eq!(kept, format!("{}\n... [响应已截断]", "中".repeat(10_915)));
    assert_eq!(kept.len(), 32_767);
}

#[test]
fn entries_get_their_customer() {
    let entry = attribute(
        log(1, Some("/api/customers/cus_1"), None, "x"),
        Some(AuditLogCustomer {
            customer_id: s("cus_1"),
            customer_name: s("客户"),
        }),
    );
    assert_eq!(entry.customer_id, Some(s("cus_1")));
    assert_eq!(entry.customer_name, "客户");
    assert_eq!(attribute(log(1, None, None, "x"), None).customer_name, "无客户");
}

#[test]
fn customers_are_filled_in_where_missing() {
    let mut named = log(2, Some("/api/orders/ord_1"), None, "x");
    named.customer_name = s("无客户");
    let logs = vec![
        log(1, Some("/api/orders/ord_1"), None, "x"),
        named,
        log(3, Some("/healthz"), None, "x"),
        log(4, None, None, "x"),
    ];
    let found = backfill_audit_log_customers(&logs, &customers(), &orders(), &licenses());
    assert_eq!(found.len(), 4);
    assert_eq!(
        found[0].as_ref().map(|c| c.customer_name.as_str()),
        Some("当前客户名")
    );
    assert!(found[1].is_none() && found[2].is_none() && found[3].is_none());
}

#[test]
fn old_entries_are_removed() {
    let plan = prune_plan(10_000_000);
    assert_eq!(plan.cutoff, 10_000_000 - 90 * 24 * 60 * 60);
    assert_eq!(plan.keep, 50_000);
}

#[test]
fn listed_entries_have_limits() {
    assert_eq!(audit_log_limit(None), 300);
    assert_eq!(audit_log_limit(Some(0)), 1);
    assert_eq!(audit_log_limit(Some(500)), 500);
    assert_eq!(audit_log_limit(Some(5000)), 1000);
}

#[test]
fn shown_entries_have_titles_and_names() {
    let shown = show(log(1, Some("/api/orders"), Some("GET"), "运营接口"));
    assert_eq!(shown.endpoint_title, "订单列表");
    assert_eq!(shown.customer_name, "无客户");
    let kept = show(log(1, Some("/api/orders"), Some("GET"), "自定义"));
    assert_eq!(kept.endpoint_title, "自定义");
    let odd = show(log(1, Some("/api/orders"), Some("GE T"), "运营接口"));
    assert_eq!(odd.endpoint_title, "运营接口");
    let unnamed = show(log(1, Some("/api/orders"), None, "运营接口"));
    assert_eq!(unnamed.endpoint_title, "运营接口");
}

#[test]
fn log_does_not_list_itself() {
    let logs = vec![
        log(1, Some("/api/orders"), Some("GET"), "x"),
        log(3, Some("/api/logs"), Some("GET"), "x"),
        log(2, None, None, "x"),
        log(4, Some("/healthz"), Some("GET"), "x"),
    ];
    let listed = list_audit_logs(logs, Some(2));
    assert_eq!(listed.iter().map(|l| l.id).collect::<Vec<_>>(), vec![4, 2]);
}
