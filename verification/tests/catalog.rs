use operation_center::applications::{
    list_public_applications, receive_application_submission, review_application_submission,
    review_at, ApplicationReleaseSubmission, ReleaseRecord, ReviewApplicationSubmissionRequest,
};
use operation_center::catalog::{
    can_count_package, can_count_product_versions, can_count_switched, create_ai_employee_product,
    create_ai_employee_product_at,
    find_on_sale, list_public_ai_employee_products, refresh_ai_employee_package_version,
    refresh_ai_employee_package_versions_for_skill, refresh_every_package,
    save_ai_employee_product, save_operation_skill, skill_snapshots,
    update_ai_employee_product_status, update_operation_skill_status, valid_switch,
    validate_active_skills, AiEmployeeProduct, CreateAiEmployeeProductRequest, OperationSkill,
    SaveOperationSkillRequest, StatusRequest,
};
use operation_center::ids::{
    generated_record_id, generated_resource_id, new_order_number, order_number_from, record_id,
    resource_id,
};
use operation_center::legacy::{linkage, relate_licenses, LicenseRow, Placement};
use operation_center::rejection::{error, success};
use operation_center::schema::{
    change_statement, has_column, license_relation_is_enforced, license_table_statement,
    required_columns, schema_changes, LicenseColumn, SchemaChange, TableColumns,
};
use operation_center::sorting::sort_unique;
use operation_center::text::{in_order, split, strip, to_lower, trim_owned, without};
use operation_center::tools::{platform_tool, platform_tool_catalog, platform_tool_group};
use operation_center::versions::version_parts;
use rusqlite::Connection;

fn s(text: &str) -> String {
    text.to_string()
}

fn product(id: &str, status: &str, skills: &[&str]) -> AiEmployeeProduct {
    AiEmployeeProduct {
        id: s(id),
        title: s("报价助手"),
        description: s("d"),
        category: s("通用"),
        price_cents: 500,
        billing_cycle: s("year"),
        version: s("1.0.3"),
        package_version: s("1.0.0"),
        skill_ids: skills.iter().map(|id| s(id)).collect(),
        system_prompt: s(""),
        allow_network: false,
        allowed_tools: vec![],
        application_ids: vec![],
        avatar_url: None,
        status: s(status),
        created_at: 1,
        updated_at: 2,
    }
}

fn skill(id: &str, version: &str, status: &str) -> OperationSkill {
    OperationSkill {
        id: s(id),
        title: s("技能"),
        package_name: s("quote"),
        source: s("imported"),
        version: s(version),
        package_path: s("p"),
        description: s(""),
        instructions: s("do it"),
        status: s(status),
        created_at: 1,
        updated_at: 2,
    }
}

fn request(id: &str) -> CreateAiEmployeeProductRequest {
    CreateAiEmployeeProductRequest {
        id: s(id),
        title: s(" 新助手 "),
        description: s(" d "),
        category: s(" "),
        price_cents: 0,
        billing_cycle: s("month"),
        skill_ids: vec![s("skill_2"), s("skill_1"), s("skill_2")],
        system_prompt: s(" p "),
        allow_network: true,
        allowed_tools: vec![s("b"), s("a")],
        application_ids: vec![],
    }
}

fn two_skills() -> Vec<OperationSkill> {
    vec![skill("skill_1", "1.0.7", "active"), skill("skill_2", "2.6.5", "active")]
}

fn switch(status: &str) -> StatusRequest {
    StatusRequest { status: s(status) }
}

#[test]
fn package_version_counts_the_skills() {
    let mut hired = product("emp_1", "active", &["skill_2", "skill_1", "skill_2", "skill_9"]);
    assert!(can_count_package(&hired, &two_skills()));
    refresh_ai_employee_package_version(&mut hired, &two_skills(), 9);
    assert_eq!(hired.package_version, "4.6.15");
    assert_eq!(hired.updated_at, 9);
    assert_eq!(hired.version, "1.0.3");
    let shots = skill_snapshots(&hired, &two_skills());
    let ids: Vec<&str> = shots.iter().map(|x| x.id.as_str()).collect();
    assert_eq!(ids, vec!["skill_1", "skill_2"]);
}

#[test]
fn packages_follow_their_skills() {
    let mut hired = product("emp_1", "active", &["skill_1", "skill_2"]);
    refresh_ai_employee_package_version(&mut hired, &two_skills(), 3);
    assert_eq!(hired.package_version, "4.6.15");
    let switched = update_operation_skill_status(&switch("inactive"), "skill_2", &two_skills(), 9)
        .ok()
        .unwrap();
    assert_eq!(switched.version, "2.6.6");
    let skills = vec![skill("skill_1", "1.0.7", "active"), switched];
    let after =
        refresh_ai_employee_package_versions_for_skill(vec![hired], "skill_2", &skills, 9);
    assert_eq!(after[0].package_version, "4.6.16");
    assert!(version_parts(&after[0].package_version) > version_parts("4.6.15"));
}

#[test]
fn packages_with_a_skill_are_refreshed() {
    let after = refresh_ai_employee_package_versions_for_skill(
        vec![product("emp_1", "active", &["skill_1"]), product("emp_2", "active", &["skill_2"])],
        "skill_1",
        &two_skills(),
        9,
    );
    assert_eq!(after[0].package_version, "2.0.10");
    assert_eq!(after[0].updated_at, 9);
    assert_eq!(after[1].package_version, "1.0.0");
    assert_eq!(after[1].updated_at, 2);
}

#[test]
fn every_package_is_refreshed_at_start() {
    let after = refresh_every_package(
        vec![product("emp_1", "active", &["skill_1"]), product("emp_2", "inactive", &[])],
        &two_skills(),
    )
    .unwrap();
    assert_eq!(after[0].package_version, "2.0.10");
    assert_eq!(after[0].updated_at, 2);
    assert_eq!(after[1].package_version, "1.0.3");
    let huge = vec![skill("skill_1", "18446744073709551615.0.0", "active")];
    assert!(refresh_every_package(vec![product("emp_1", "active", &["skill_1"])], &huge).is_none());
}

#[test]
fn inactive_skills_are_refused() {
    let mut skills = two_skills();
    assert!(validate_active_skills(&vec![s("skill_1"), s("skill_2")], &skills).is_none());
    let refused = validate_active_skills(&vec![s("skill_9")], &skills).unwrap();
    assert_eq!((refused.status, refused.message.as_str()), (400, "Skill 不存在：skill_9"));
    skills[1].status = s("inactive");
    let refused = validate_active_skills(&vec![s("skill_1"), s("skill_2")], &skills).unwrap();
    assert_eq!((refused.status, refused.message.as_str()), (400, "Skill 已停用：技能"));
}

#[test]
fn new_employee_is_as_asked_for() {
    let made = save_ai_employee_product(&request(" "), "ai-employee-1", &vec![], &two_skills(), 9)
        .ok()
        .unwrap();
    assert_eq!(made.id, "ai-employee-1");
    assert_eq!(made.title, "新助手");
    assert_eq!(made.category, "通用");
    assert_eq!(made.version, "1.0.0");
    assert_eq!(made.package_version, "4.6.12");
    assert_eq!(made.skill_ids, vec!["skill_1", "skill_2"]);
    assert_eq!(made.allowed_tools, vec!["b", "a"]);
    assert_eq!(made.system_prompt, "p");
    assert_eq!(made.status, "active");
    assert_eq!(made.created_at, 9);
    let made = create_ai_employee_product(&request(""), &vec![], &two_skills())
        .unwrap()
        .ok()
        .unwrap();
    assert!(made.id.starts_with("ai-employee-"));
    let at = |products: &Vec<AiEmployeeProduct>| {
        create_ai_employee_product_at(&request("emp_1"), "x", products, &two_skills(), 9)
    };
    let made = at(&vec![product("emp_1", "active", &[])]).unwrap().ok().unwrap();
    assert_eq!((made.id.as_str(), made.version.as_str(), made.updated_at), ("emp_1", "1.0.4", 9));
    let mut last = product("emp_1", "active", &[]);
    last.version = format!("{}.9.9", u64::MAX);
    assert!(at(&vec![last]).is_none());
}

#[test]
fn saved_employee_is_ahead() {
    let existing = vec![product("emp_1", "inactive", &[])];
    let saved = save_ai_employee_product(&request(" emp_1 "), "x", &existing, &two_skills(), 9)
        .ok()
        .unwrap();
    assert_eq!(saved.id, "emp_1");
    assert_eq!(saved.version, "1.0.4");
    assert_eq!(saved.status, "inactive");
    assert_eq!(saved.created_at, 1);
    assert_eq!(saved.updated_at, 9);
    assert!(can_count_product_versions(&request("emp_1"), "x", &existing, &two_skills()));
}

#[test]
fn employee_flaws_are_told() {
    let refuse = |request: &CreateAiEmployeeProductRequest| {
        let refused = create_ai_employee_product(request, &vec![], &two_skills())
            .unwrap()
            .err()
            .unwrap();
        (refused.status, refused.message)
    };
    let mut flawed = request("a");
    flawed.title = s(" ");
    assert_eq!(refuse(&flawed), (400, s("AI 员工 title 或价格无效")));
    let mut flawed = request("a");
    flawed.price_cents = -1;
    assert_eq!(refuse(&flawed), (400, s("AI 员工 title 或价格无效")));
    let mut flawed = request("a");
    flawed.billing_cycle = s("week");
    assert_eq!(refuse(&flawed), (400, s("计费周期无效")));
    let mut flawed = request("a");
    flawed.skill_ids = vec![s("skill_9")];
    assert_eq!(refuse(&flawed), (400, s("Skill 不存在：skill_9")));
}

#[test]
fn switched_employee_is_ahead() {
    let products = vec![product("emp_1", "active", &["skill_1"])];
    assert!(can_count_switched("emp_1", &products, &two_skills()));
    let switched =
        update_ai_employee_product_status(&switch("inactive"), "emp_1", &products, &two_skills(), 9)
            .ok()
            .unwrap();
    assert_eq!(switched.status, "inactive");
    assert_eq!(switched.version, "1.0.4");
    assert_eq!(switched.package_version, "2.0.11");
    let refused =
        update_ai_employee_product_status(&switch("gone"), "emp_1", &products, &two_skills(), 9)
            .err()
            .unwrap();
    assert_eq!((refused.status, refused.message.as_str()), (400, "AI 员工状态无效"));
    let refused =
        update_ai_employee_product_status(&switch("active"), "emp_9", &products, &two_skills(), 9)
            .err()
            .unwrap();
    assert_eq!((refused.status, refused.message.as_str()), (404, "AI 员工不存在"));
    assert!(valid_switch("active") && !valid_switch("on"));
}

#[test]
fn market_shows_what_is_on_sale() {
    let mut pictured = product("emp_1", "active", &[]);
    pictured.avatar_url = Some(s("x.webp"));
    let products = vec![pictured, product("emp_2", "inactive", &[])];
    let shown = list_public_ai_employee_products(&products);
    assert_eq!(shown.len(), 1);
    assert_eq!(shown[0].id, "emp_1");
    assert_eq!(shown[0].version, "1.0.0");
    assert_eq!(shown[0].avatar_url, Some(s("/api/ai-employees/emp_1/avatar")));
    let mut newer = product("emp_3", "active", &[]);
    newer.updated_at = products[0].updated_at + 1;
    let all = vec![product("emp_1", "active", &[]), product("emp_2", "inactive", &[]), newer];
    let listed = list_public_ai_employee_products(&all);
    let ids: Vec<&str> = listed.iter().map(|x| x.id.as_str()).collect();
    assert_eq!(ids, vec!["emp_3", "emp_1"]);
    assert!(find_on_sale(&products, "emp_1").is_some());
    assert!(find_on_sale(&products, "emp_2").is_none());
}

#[test]
fn saved_skill_is_ahead() {
    let save = |id: &str, title: &str, source: &str| SaveOperationSkillRequest {
        id: s(id),
        title: s(title),
        source: s(source),
        description: s(" d "),
        instructions: s(" i "),
    };
    let saved = save_operation_skill(&save(" skill_1 ", " 新名 ", " "), &two_skills(), 9)
        .ok()
        .unwrap();
    assert_eq!(saved.title, "新名");
    assert_eq!(saved.source, "operation-center");
    assert_eq!(saved.version, "1.0.8");
    assert_eq!(saved.instructions, "i");
    assert_eq!(saved.package_name, "quote");
    assert_eq!(saved.updated_at, 9);
    let refuse = |request: &SaveOperationSkillRequest| {
        let refused = save_operation_skill(request, &two_skills(), 9).err().unwrap();
        (refused.status, refused.message)
    };
    assert_eq!(refuse(&save(" ", "t", "")), (400, s("Skill 必须通过 ZIP 导入创建")));
    assert_eq!(refuse(&save("skill_1", " ", "")), (400, s("Skill 名称和执行说明不能为空")));
    assert_eq!(refuse(&save("skill_9", "t", "")), (404, s("Skill 不存在")));
}

#[test]
fn switched_skill_is_ahead() {
    let switched = update_operation_skill_status(&switch("inactive"), "skill_1", &two_skills(), 9)
        .ok()
        .unwrap();
    assert_eq!(switched.status, "inactive");
    assert_eq!(switched.version, "1.0.8");
    let refused = update_operation_skill_status(&switch("x"), "skill_1", &two_skills(), 9)
        .err()
        .unwrap();
    assert_eq!((refused.status, refused.message.as_str()), (400, "Skill 状态无效"));
    let refused = update_operation_skill_status(&switch("active"), "skill_9", &two_skills(), 9)
        .err()
        .unwrap();
    assert_eq!((refused.status, refused.message.as_str()), (404, "Skill 不存在"));
}

fn submission(id: &str, app: &str) -> ApplicationReleaseSubmission {
    ApplicationReleaseSubmission {
        submission_id: s(id),
        app_id: s(app),
        app_name: s("进销存"),
        version: s("1.0.0"),
        status: s("draft"),
        submitted_by: s("wang"),
        applicant_subject: s("someone else"),
        submitted_at: 5,
        snapshot: s("{}"),
    }
}

#[test]
fn submissions_are_public_once_approved() {
    let mut records: Vec<ReleaseRecord> = vec![];
    let received =
        receive_application_submission(submission("sub_1", "app_1"), "cus_1", &mut records)
            .ok()
            .unwrap();
    assert_eq!(received.applicant_subject, "cus_1");
    assert_eq!(records[0].submission.status, "pending_review");
    assert!(list_public_applications(&records).is_empty());
    let review = ReviewApplicationSubmissionRequest {
        approved: true,
        reason: s(" ok "),
    };
    let reviewed = review_at("sub_1", &review, &records, 9).ok().unwrap();
    assert_eq!(reviewed.submission.status, "approved");
    assert_eq!(reviewed.reviewed_at, Some(9));
    assert_eq!(reviewed.review_reason, "ok");
    let public = list_public_applications(&vec![reviewed]);
    assert_eq!(public.len(), 1);
    assert_eq!(public[0].app_id, "app_1");
    let approved = |id: &str, submitted_at: i64| {
        let mut records: Vec<ReleaseRecord> = vec![];
        let mut sent = submission(id, "app");
        sent.submitted_at = submitted_at;
        receive_application_submission(sent, "cus_1", &mut records).ok().unwrap();
        review_at(id, &review, &records, 9).ok().unwrap()
    };
    let public = list_public_applications(&vec![approved("old", 1), approved("new", 2)]);
    assert_eq!(public[0].submission_id, "new");
    assert_eq!(public[1].submission_id, "old");
}

#[test]
fn submission_flaws_are_told() {
    let mut records: Vec<ReleaseRecord> = vec![];
    let refused = receive_application_submission(submission(" ", "app_1"), "cus_1", &mut records)
        .err()
        .unwrap();
    assert_eq!(
        (refused.status, refused.message.as_str()),
        (400, "应用上线申请信息不完整")
    );
    assert!(records.is_empty());
    let review = ReviewApplicationSubmissionRequest {
        approved: false,
        reason: s(""),
    };
    let refused = review_application_submission("sub_1", &review, &records).err().unwrap();
    assert_eq!(
        (refused.status, refused.message.as_str()),
        (404, "应用上线申请不存在")
    );
}

#[test]
fn submission_is_renewed_in_place() {
    let mut records: Vec<ReleaseRecord> = vec![];
    receive_application_submission(submission("sub_1", "app_1"), "cus_1", &mut records)
        .ok()
        .unwrap();
    let review = ReviewApplicationSubmissionRequest {
        approved: true,
        reason: s(""),
    };
    records[0] = review_application_submission("sub_1", &review, &records).ok().unwrap();
    let mut renewed = submission("sub_1", "app_2");
    renewed.version = s("1.0.1");
    receive_application_submission(renewed, "cus_2", &mut records).ok().unwrap();
    assert_eq!(records.len(), 1);
    assert_eq!(records[0].submission.version, "1.0.1");
    assert_eq!(records[0].submission.app_id, "app_1");
    assert_eq!(records[0].submission.applicant_subject, "cus_2");
    assert_eq!(records[0].submission.status, "approved");
}

#[test]
fn tools_are_listed_once_each() {
    let tools = platform_tool_catalog();
    assert_eq!(tools.len(), 29);
    let ids = sort_unique(tools.iter().map(|tool| s(tool.id)).collect());
    assert_eq!(ids.len(), 29);
    for tool in &tools {
        assert_eq!(tool.group, platform_tool_group(tool.id, tool.category));
        assert!(["read", "write", "destructive"].contains(&tool.risk_level));
        assert_eq!(tool.risk_level == "destructive", tool.id.starts_with("delete_"));
    }
}

#[test]
fn tools_have_groups() {
    assert_eq!(platform_tool_group("create_app", "app"), "构建");
    assert_eq!(platform_tool_group("list_apps", "app"), "分析");
    assert_eq!(platform_tool_group("other", "app"), "通用");
    assert_eq!(platform_tool_group("get_form_schema", "form"), "分析");
    assert_eq!(platform_tool_group("save_form_schema", "form"), "构建");
    assert_eq!(platform_tool_group("get_automation_graph", "automation"), "分析");
    assert_eq!(platform_tool_group("x", "automation"), "构建");
    assert_eq!(platform_tool_group("x", "workflow"), "分析");
    assert_eq!(platform_tool_group("x", "plugin"), "扩展");
    assert_eq!(platform_tool_group("x", "script"), "扩展");
    assert_eq!(platform_tool_group("x", "y"), "通用");
    let tool = platform_tool("create_app", "t", "d", "app", "write");
    assert_eq!((tool.title, tool.description, tool.group), ("t", "d", "构建"));
}

fn columns_of(connection: &Connection, table: &str) -> TableColumns {
    let mut statement = connection
        .prepare(&format!("PRAGMA table_info({table})"))
        .unwrap();
    let columns = statement
        .query_map([], |row| row.get::<_, String>(1))
        .unwrap()
        .collect::<Result<Vec<_>, _>>()
        .unwrap();
    TableColumns {
        table: s(table),
        columns,
    }
}

#[test]
fn removes_legacy_skill_configuration_columns() {
    let connection = Connection::open_in_memory().expect("create database");
    connection
        .execute_batch(
            "CREATE TABLE operation_skills (
                id TEXT PRIMARY KEY,
                is_system INTEGER NOT NULL DEFAULT 0,
                requires_confirmation INTEGER NOT NULL DEFAULT 0
             );",
        )
        .expect("create legacy skill table");
    for change in schema_changes(&vec![columns_of(&connection, "operation_skills")]) {
        if matches!(change, SchemaChange::Drop(_)) {
            connection
                .execute_batch(&change_statement(&change))
                .expect("remove legacy skill columns");
        }
    }
    assert_eq!(columns_of(&connection, "operation_skills").columns, vec!["id"]);
}

#[test]
fn older_databases_are_brought_up_to_date() {
    let connection = Connection::open_in_memory().unwrap();
    let mut tables: Vec<&str> = required_columns().iter().map(|c| c.table).collect();
    tables.dedup();
    let tables = sort_unique(tables.into_iter().map(s).collect());
    for table in &tables {
        let extra = if table == "ai_employee_products" { ", persona_id TEXT" } else { "" };
        connection
            .execute_batch(&format!("CREATE TABLE {table} (id TEXT PRIMARY KEY{extra})"))
            .unwrap();
    }
    let present = || -> Vec<TableColumns> {
        tables.iter().map(|table| columns_of(&connection, table)).collect()
    };
    assert!(has_column(&present(), "ai_employee_products", "persona_id"));
    let changes = schema_changes(&present());
    assert_eq!(changes.len(), 25);
    assert_eq!(
        change_statement(&changes[0]),
        "ALTER TABLE ai_employee_products DROP COLUMN persona_id"
    );
    for change in changes {
        connection.execute_batch(&change_statement(&change)).unwrap();
    }
    assert!(schema_changes(&present()).is_empty());
    assert!(has_column(&present(), "operation_skills", "source"));
    assert!(!has_column(&present(), "ai_employee_products", "persona_id"));
}

#[test]
fn migrates_unlinked_licenses_and_enforces_order_relation() {
    let connection = Connection::open_in_memory().expect("create legacy database");
    connection
        .execute_batch(
            "CREATE TABLE orders (order_id TEXT PRIMARY KEY NOT NULL);
             CREATE TABLE legacy_licenses (
                license_id TEXT PRIMARY KEY NOT NULL,
                license TEXT NOT NULL,
                subject TEXT NOT NULL,
                customer_name_snapshot TEXT NOT NULL DEFAULT '',
                modules_json TEXT NOT NULL,
                issued_at INTEGER NOT NULL,
                expires_at INTEGER NOT NULL,
                module_expires_at_json TEXT NOT NULL,
                ai_employees_json TEXT NOT NULL DEFAULT '[]',
                platform_status TEXT NOT NULL,
                module_statuses_json TEXT NOT NULL,
                order_id TEXT,
                linkage_status TEXT NOT NULL
             );
             CREATE TABLE licenses (
                license_id TEXT PRIMARY KEY NOT NULL,
                license TEXT NOT NULL,
                subject TEXT NOT NULL,
                modules_json TEXT NOT NULL,
                issued_at INTEGER NOT NULL,
                expires_at INTEGER NOT NULL,
                module_expires_at_json TEXT NOT NULL,
                ai_employees_json TEXT NOT NULL DEFAULT '[]',
                platform_status TEXT NOT NULL,
                module_statuses_json TEXT NOT NULL,
                order_id TEXT
             );
             INSERT INTO licenses VALUES (
                'lic_legacy', 'token', '历史客户', '[\"platform\"]', 1, 2,
                '{}', '[]', 'unactivated', '{}', NULL
             );",
        )
        .expect("seed legacy license");
    let enforced = || {
        let columns = connection
            .prepare("PRAGMA table_info(licenses)")
            .unwrap()
            .query_map([], |row| {
                Ok(LicenseColumn {
                    name: row.get(1)?,
                    not_null: row.get::<_, i64>(3)? != 0,
                })
            })
            .unwrap()
            .collect::<Result<Vec<_>, _>>()
            .unwrap();
        let references = connection
            .prepare("PRAGMA foreign_key_list(licenses)")
            .unwrap()
            .query_map([], |row| row.get::<_, String>(2))
            .unwrap()
            .collect::<Result<Vec<_>, _>>()
            .unwrap();
        license_relation_is_enforced(&columns, &references)
    };
    assert!(!enforced());
    let rows = connection
        .prepare("SELECT license_id, subject, order_id, issued_at FROM licenses")
        .unwrap()
        .query_map([], |row| {
            Ok(LicenseRow {
                license_id: row.get(0)?,
                subject: row.get(1)?,
                order_id: row.get(2)?,
                issued_at: row.get(3)?,
            })
        })
        .unwrap()
        .collect::<Result<Vec<_>, _>>()
        .unwrap();
    assert_eq!(rows.len(), 1);
    let placed = relate_licenses(&rows, &vec![], &vec![], &vec![]);
    assert!(matches!(&placed[0], Placement::Unlinked(name) if name == "历史客户"));
    connection
        .execute_batch(&format!(
            "ALTER TABLE licenses RENAME TO old_licenses; {}",
            license_table_statement()
        ))
        .expect("migrate database");
    for (row, placement) in rows.iter().zip(&placed) {
        let (table, name) = match placement {
            Placement::Linked(name) => ("licenses", name),
            Placement::Unlinked(name) => ("legacy_licenses", name),
            Placement::Known => continue,
        };
        connection
            .execute(
                &format!(
                    "INSERT INTO {table} SELECT license_id, license, subject, ?, modules_json,
                        issued_at, expires_at, module_expires_at_json, ai_employees_json,
                        platform_status, module_statuses_json, order_id, ?
                     FROM old_licenses WHERE license_id = ?"
                ),
                (name, linkage(placement), &row.license_id),
            )
            .expect("place license");
    }
    connection.execute_batch("DROP TABLE old_licenses").expect("drop the old table");
    connection
        .execute_batch("PRAGMA foreign_keys = ON;")
        .expect("enable foreign keys");
    assert!(enforced());
    let linkage_status: String = connection
        .query_row(
            "SELECT linkage_status FROM legacy_licenses WHERE license_id = 'lic_legacy'",
            [],
            |row| row.get(0),
        )
        .expect("legacy license remains visible");
    assert_eq!(linkage_status, "legacy_unlinked");
    let order_id_not_null: i64 = connection
        .query_row(
            "SELECT \"notnull\" FROM pragma_table_info('licenses') WHERE name = 'order_id'",
            [],
            |row| row.get(0),
        )
        .expect("order_id schema");
    assert_eq!(order_id_not_null, 1);
    let foreign_key_table: String = connection
        .query_row(
            "SELECT \"table\" FROM pragma_foreign_key_list('licenses') WHERE \"from\" = 'order_id'",
            [],
            |row| row.get(0),
        )
        .expect("order foreign key");
    assert_eq!(foreign_key_table, "orders");
    let table_sql: String = connection
        .query_row(
            "SELECT sql FROM sqlite_master WHERE type = 'table' AND name = 'licenses'",
            [],
            |row| row.get(0),
        )
        .expect("license schema sql");
    assert!(table_sql.contains("order_id TEXT NOT NULL UNIQUE"));
    assert_eq!(
        connection
            .query_row("SELECT COUNT(*) FROM licenses", [], |row| row.get::<_, i64>(0))
            .expect("strict license count"),
        0
    );
}

#[test]
fn identifiers_are_written_out() {
    let bytes: Vec<u8> = (0..16).map(|i| i * 16 + 15).collect();
    assert_eq!(record_id("ord_", &bytes), "ord_0f1f2f3f4f5f6f7f8f9fafbfcfdfefff");
    assert_eq!(
        resource_id("prv", &bytes),
        "prv-0f1f2f3f-4f5f-6f7f-8f9f-afbfcfdfefff"
    );
    assert_eq!(order_number_from("20260102", &bytes), "YY20260102-0F1F2F");
    assert!(new_order_number(86_400).starts_with("YY19700102-"));
    assert_ne!(generated_record_id("a"), generated_record_id("a"));
    assert_eq!(generated_resource_id("a").len(), 38);
}

#[test]
fn answers_have_envelopes() {
    let ok = success("好", 5);
    assert_eq!((ok.code, ok.message.as_str(), ok.data), (0, "好", Some(5)));
    let (status, body) = error(404, "无");
    assert_eq!((status, body.code, body.message.as_str()), (404, 404, "无"));
    assert!(body.data.is_none());
}

#[test]
fn texts_are_cut_and_ordered() {
    assert_eq!(trim_owned(" \u{3000}a b\u{a0}\n"), "a b");
    assert_eq!(split("a;b;;c", ';'), vec!["a", "b", "", "c"]);
    assert_eq!(strip("//a/b/", '/'), "a/b");
    assert_eq!(without("a\"b\"", '"'), "ab");
    assert_eq!(to_lower("ABC中É"), "abc中É");
    assert!(in_order("a", "ab") && in_order("ab", "b") && !in_order("b", "ab"));
    assert_eq!(
        sort_unique(vec![s("b"), s("a"), s("中"), s("b")]),
        vec!["a", "b", "中"]
    );
}
