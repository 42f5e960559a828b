use operation_center::access::{access, authorize, Access, Operation};
use operation_center::accounts::{
    admit_login, bearer_token, check_user_request, cookie_value, create_session, create_user, fixed_role,
    list_users, log_in, new_user, open_session, provider_scope, require_admin,
    require_authenticated, require_platform_admin, session_status, visible_records,
    AuthenticatedUser, CreateUserRequest, LoginRequest, Sessions, UserAccount,
};
use operation_center::commissions::CommissionEntry;
use operation_center::passwords::hash_password;
use operation_center::startup::{first_admin, local_secret_file, reset_admin, start_accounts};

fn s(text: &str) -> String {
    text.to_string()
}

fn request(username: &str, role: &str) -> CreateUserRequest {
    CreateUserRequest {
        username: s(username),
        password: s("long enough"),
        display_name: s("  Wang  "),
        role: s(role),
        organization_id: None,
    }
}

fn account(username: &str, status: &str, hash: &str) -> UserAccount {
    UserAccount {
        user_id: s("usr-1"),
        username: s(username),
        password_hash: s(hash),
        display_name: s("Wang"),
        role: s("platform_operator"),
        organization_id: s("platform"),
        status: s(status),
    }
}

fn user(role: &str) -> AuthenticatedUser {
    AuthenticatedUser {
        user_id: s("usr-1"),
        role: s(role),
        organization_id: s("prv-1"),
    }
}

fn sessions(role: &str) -> Sessions {
    let mut open: Sessions = Sessions::new();
    open_session(s("abc"), user(role), &mut open);
    open
}

fn cookie() -> Option<String> {
    Some(s("theme=dark; license_center_session=abc"))
}

fn login(username: &str, password: &str) -> LoginRequest {
    LoginRequest {
        username: s(username),
        password: s(password),
    }
}

fn entry(id: &str, provider: &str) -> CommissionEntry {
    CommissionEntry {
        entry_id: s(id),
        order_id: s("ord_1"),
        provider_id: s(provider),
        product_type: s("服务"),
        received_amount_cents: 100,
        rate_basis_points: 500,
        commission_amount_cents: 5,
        status: s("pending_settlement"),
        created_at: 1,
    }
}

#[test]
fn roles_are_fixed() {
    for role in [
        "platform_admin",
        "platform_operator",
        "platform_finance",
        "provider_admin",
        "provider_sales",
    ] {
        assert!(fixed_role(role));
    }
    assert!(!fixed_role("root"));
}

#[test]
fn bearer_token_follows_its_prefix() {
    assert_eq!(bearer_token(&Some(s("Bearer a.b.c"))), Some(s("a.b.c")));
    assert_eq!(bearer_token(&Some(s("bearer a.b.c"))), None);
    assert_eq!(bearer_token(&None), None);
}

#[test]
fn cookie_value_is_that_of_the_first_match() {
    let header = Some(s("a=1;  b=2=3 ; b=4; c"));
    assert_eq!(cookie_value(&header, "a"), Some(s("1")));
    assert_eq!(cookie_value(&header, "b"), Some(s("2=3")));
    assert_eq!(cookie_value(&header, "c"), None);
    assert_eq!(cookie_value(&None, "a"), None);
}

#[test]
fn session_cookie_is_recognized() {
    let mut open: Sessions = Sessions::new();
    let header = open_session(s("abc"), user("platform_admin"), &mut open);
    assert_eq!(
        header,
        "license_center_session=abc; HttpOnly; Path=/; SameSite=Lax; Max-Age=604800"
    );
    let known = require_authenticated(&Some(header), &open).unwrap();
    assert_eq!(known.user_id, "usr-1");
    assert_eq!(known.role, "platform_admin");
    assert_eq!(known.organization_id, "prv-1");
}

#[test]
fn unknown_session_is_refused() {
    let refused = require_authenticated(&Some(s("license_center_session=xyz")), &sessions("x"))
        .err()
        .unwrap();
    assert_eq!((refused.status, refused.message.as_str()), (401, "请先登录"));
    assert!(require_authenticated(&None, &sessions("x")).is_err());
}

#[test]
fn provider_accounts_manage_nothing() {
    assert!(require_admin(&cookie(), &sessions("platform_finance")).is_ok());
    let refused = require_admin(&cookie(), &sessions("provider_admin")).err().unwrap();
    assert_eq!(
        (refused.status, refused.message.as_str()),
        (403, "当前账号没有平台运营权限")
    );
    let refused = require_platform_admin(&cookie(), &sessions("platform_operator"))
        .err()
        .unwrap();
    assert_eq!(
        (refused.status, refused.message.as_str()),
        (403, "仅平台超级管理员可管理账号")
    );
    assert!(require_platform_admin(&cookie(), &sessions("platform_admin")).is_ok());
}

#[test]
fn access_is_as_documented() {
    assert!(matches!(access(&Operation::CheckHealth), Access::Anyone));
    assert!(matches!(access(&Operation::ListMarket), Access::Anyone));
    assert!(matches!(access(&Operation::TakePackage), Access::License));
    assert!(matches!(access(&Operation::ListOrders), Access::LoggedIn));
    assert!(matches!(access(&Operation::CreateOrder), Access::Platform));
    assert!(matches!(access(&Operation::ListUsers), Access::PlatformAdmin));
    assert!(matches!(access(&Operation::CreateUser), Access::PlatformAdmin));
    assert!(matches!(access(&Operation::Settle), Access::PlatformAdmin));
}

#[test]
fn authorize_applies_the_access() {
    assert!(authorize(&Operation::ListMarket, &None, &Sessions::new())
        .unwrap()
        .is_none());
    assert!(authorize(&Operation::ListOrders, &cookie(), &sessions("provider_sales")).is_ok());
    assert_eq!(
        authorize(&Operation::CreateOrder, &cookie(), &sessions("provider_sales"))
            .err()
            .unwrap()
            .status,
        403
    );
    assert_eq!(
        authorize(&Operation::CreateOrder, &None, &sessions("platform_admin"))
            .err()
            .unwrap()
            .status,
        401
    );
    assert!(authorize(&Operation::Settle, &cookie(), &sessions("platform_admin")).is_ok());
}

#[test]
fn provider_sees_own_records_only() {
    assert_eq!(provider_scope(&user("provider_sales")), Some(s("prv-1")));
    assert_eq!(provider_scope(&user("platform_admin")), None);
    let all = || vec![entry("a", "prv-1"), entry("b", "prv-2"), entry("c", "prv-1")];
    let own = visible_records(&user("provider_admin"), all());
    assert_eq!(
        own.iter().map(|e| e.entry_id.as_str()).collect::<Vec<_>>(),
        vec!["a", "c"]
    );
    assert_eq!(visible_records(&user("platform_finance"), all()).len(), 3);
}

#[test]
fn user_request_flaws_are_told() {
    let message = |r: &CreateUserRequest| check_user_request(r).map(|flaw| (flaw.status, flaw.message));
    assert!(message(&request("wang.li", "provider_sales")).is_none());
    assert_eq!(
        message(&request("ab", "provider_sales")),
        Some((400, s("账号仅支持 3-64 位字母、数字及 _-.")))
    );
    assert!(message(&request(&"a".repeat(64), "provider_sales")).is_none());
    assert!(message(&request(&"a".repeat(65), "provider_sales")).is_some());
    assert!(message(&request("wang li", "provider_sales")).is_some());
    assert!(message(&request("王小二", "provider_sales")).is_some());
    let mut empty = request("wang", "provider_sales");
    empty.password = s("");
    assert_eq!(message(&empty), Some((400, s("初始密码不能为空"))));
    assert_eq!(
        message(&request("wang", "owner")),
        Some((400, s("角色不在固定角色范围内")))
    );
}

#[test]
fn new_user_is_as_asked_for() {
    let made = new_user(
        &request("  wang ", "provider_sales"),
        &vec![account("li", "active", "h")],
        s("usr-9"),
        Some(s("hash")),
    )
    .ok()
    .unwrap();
    assert_eq!(made.user_id, "usr-9");
    assert_eq!(made.username, "wang");
    assert_eq!(made.display_name, "Wang");
    assert_eq!(made.organization_id, "platform");
    assert_eq!(made.status, "active");
    assert_eq!(made.password_hash, "hash");
}

#[test]
fn taken_user_names_and_failed_hashes_are_refused() {
    let refused = new_user(
        &request("wang", "provider_sales"),
        &vec![account("wang", "inactive", "h")],
        s("usr-9"),
        Some(s("hash")),
    )
    .err()
    .unwrap();
    assert_eq!((refused.status, refused.message.as_str()), (409, "账号已存在"));
    let refused = new_user(&request("wang", "provider_sales"), &vec![], s("usr-9"), None)
        .err()
        .unwrap();
    assert_eq!((refused.status, refused.message.as_str()), (500, "密码处理失败"));
}

#[test]
fn created_user_can_log_in() {
    let made = create_user(&request("wang", "platform_operator"), &vec![]).ok().unwrap();
    assert!(made.user_id.starts_with("usr-"));
    assert_eq!(made.user_id.len(), 40);
    assert_ne!(made.password_hash, "long enough");
    assert!(made.password_hash.starts_with("$argon2id$"));
    let accounts = vec![made];
    let known = log_in(&login(" wang ", "long enough"), &accounts).ok().unwrap();
    assert_eq!(known.role, "platform_operator");
    assert_eq!(known.organization_id, "platform");
    let refused = log_in(&login("wang", "long Enough"), &accounts).err().unwrap();
    assert_eq!((refused.status, refused.message.as_str()), (401, "账号或密码错误"));
}

#[test]
fn inactive_accounts_and_broken_hashes_cannot_log_in() {
    let hash = hash_password("pw").unwrap();
    assert!(log_in(&login("wang", "pw"), &vec![account("wang", "active", &hash)]).is_ok());
    assert!(log_in(&login("wang", "pw"), &vec![account("wang", "inactive", &hash)]).is_err());
    assert!(log_in(&login("wang", "pw"), &vec![account("wang", "active", "pw")]).is_err());
    assert!(log_in(&login("li", "pw"), &vec![account("wang", "active", &hash)]).is_err());
}

#[test]
fn session_opens_for_a_login_only() {
    let accounts = vec![account("wang", "active", &hash_password("pw").unwrap())];
    let mut open: Sessions = Sessions::new();
    assert!(create_session(&login("wang", "no"), &accounts, &mut open).is_err());
    assert_eq!(open.entries.len(), 0);
    let (known, header) = create_session(&login("wang", "pw"), &accounts, &mut open)
        .ok()
        .unwrap();
    assert_eq!(known.user_id, "usr-1");
    assert_eq!(open.entries.len(), 1);
    let shown = session_status(&Some(header), &open, &accounts).ok().unwrap();
    assert_eq!(shown.username, "wang");
    assert_eq!(shown.status, "active");
}

#[test]
fn session_of_a_removed_account_is_refused() {
    let refused = session_status(&cookie(), &sessions("platform_admin"), &vec![])
        .err()
        .unwrap();
    assert_eq!(
        (refused.status, refused.message.as_str()),
        (401, "账号不存在或已失效")
    );
}

#[test]
fn listed_users_keep_their_order() {
    let mut other = account("li", "inactive", "h");
    other.user_id = s("usr-2");
    let shown = list_users(&vec![account("wang", "active", "h"), other]);
    assert_eq!(shown.len(), 2);
    assert_eq!(shown[0].username, "wang");
    assert_eq!(shown[1].user_id, "usr-2");
    assert_eq!(shown[1].status, "inactive");
}

#[test]
fn first_start_needs_a_password() {
    assert_eq!(
        start_accounts(vec![], "admin", &None, &None).err(),
        Some(s(
            "首次启动需要设置 YAYA_OPERATION_CENTER_INITIAL_ADMIN_PASSWORD"
        ))
    );
    assert_eq!(
        start_accounts(vec![], "admin", &Some(s("")), &None).err(),
        Some(s("初始管理员密码不能为空"))
    );
}

#[test]
fn first_start_makes_the_administrator() {
    let accounts = start_accounts(
        vec![],
        "admin",
        &Some(s("development-only-password")),
        &None,
    )
    .ok()
    .unwrap();
    assert_eq!(accounts.len(), 1);
    assert_eq!(accounts[0].username, "admin");
    assert_eq!(accounts[0].role, "platform_admin");
    assert_eq!(accounts[0].display_name, "平台超级管理员");
    let known = log_in(&login("admin", "development-only-password"), &accounts)
        .ok()
        .unwrap();
    assert_eq!(known.role, "platform_admin");
}

#[test]
fn later_starts_keep_the_accounts() {
    let accounts = start_accounts(vec![account("wang", "active", "h")], "admin", &None, &None)
        .ok()
        .unwrap();
    assert_eq!(accounts.len(), 1);
    assert_eq!(accounts[0].username, "wang");
    assert_eq!(accounts[0].password_hash, "h");
}

#[test]
fn forgotten_password_is_set_anew() {
    let accounts = vec![account("wang", "active", "h"), account("admin", "inactive", "h")];
    let after = start_accounts(accounts, "admin", &None, &Some(s("new"))).ok().unwrap();
    assert_eq!(after[0].password_hash, "h");
    assert_eq!(after[1].status, "active");
    assert!(log_in(&login("admin", "new"), &after).is_ok());
}

#[test]
fn password_reset_can_fail() {
    let admin = || vec![account("admin", "active", "h")];
    assert_eq!(
        reset_admin(admin(), "", Ok(s("x"))).err(),
        Some(s("管理员重置密码不能为空"))
    );
    assert_eq!(reset_admin(admin(), "new", Err(s("broken"))).err(), Some(s("broken")));
    assert_eq!(
        reset_admin(vec![account("wang", "active", "h")], "new", Ok(s("x"))).err(),
        Some(s("未找到 admin 账号，无法重置管理员密码"))
    );
    assert_eq!(
        start_accounts(vec![], "admin", &Some(s("pw")), &Some(s("new"))).err(),
        Some(s("未找到 admin 账号，无法重置管理员密码"))
    );
}

#[test]
fn first_administrator_is_as_configured() {
    let made = first_admin("root", &Some(s("pw")), s("usr-1"), Ok(s("hash"))).ok().unwrap();
    assert_eq!(made.username, "root");
    assert_eq!(made.user_id, "usr-1");
    assert_eq!(made.password_hash, "hash");
    assert_eq!(made.organization_id, "platform");
    assert_eq!(
        first_admin("root", &Some(s("pw")), s("usr-1"), Err(s("broken"))).err(),
        Some(s("broken"))
    );
}

#[test]
fn login_depends_on_the_password() {
    let known = account("wang", "active", "h");
    assert_eq!(admit_login(Some(&known), true).ok().unwrap().user_id, "usr-1");
    assert_eq!(admit_login(Some(&known), false).err().unwrap().status, 401);
    assert_eq!(admit_login(None, true).err().unwrap().message, "账号或密码错误");
}

#[test]
fn same_password_has_different_hashes() {
    assert_ne!(hash_password("pw"), hash_password("pw"));
}

#[test]
fn development_secrets_have_files() {
    assert_eq!(
        local_secret_file("LICENSE_SIGNING_PRIVATE_KEY_PEM"),
        Some("../secrets/private.pem")
    );
    assert_eq!(
        local_secret_file("LICENSE_SIGNING_PUBLIC_KEY_PEM"),
        Some("../secrets/public.pem")
    );
    assert_eq!(local_secret_file("HOME"), None);
}
