//! Accounts with fixed roles, sessions, and who may do what.

use vstd::prelude::*;

use crate::copying::Duplicate;
use crate::ids;
use crate::passwords;
use crate::rejection;
use crate::rejection::{refuse, Rejection};
use crate::text;
use crate::text_map::TextMap;

verus! {

/// Who a session belongs to.
pub struct AuthenticatedUser {
    pub user_id: String,
    pub role: String,
    pub organization_id: String,
}

/// What a `AuthenticatedUser` holds.
#[verifier::ext_equal]
pub struct AuthenticatedUserView {
    pub user_id: Seq<char>,
    pub role: Seq<char>,
    pub organization_id: Seq<char>,
}

impl View for AuthenticatedUser {
    type V = AuthenticatedUserView;

    open spec fn view(&self) -> AuthenticatedUserView {
        AuthenticatedUserView {
            user_id: self.user_id@,
            role: self.role@,
            organization_id: self.organization_id@,
        }
    }
}

impl Duplicate for AuthenticatedUser {
    fn duplicate(&self) -> (r: Self) {
        AuthenticatedUser {
            user_id: self.user_id.clone(),
            role: self.role.clone(),
            organization_id: self.organization_id.clone(),
        }
    }
}

/// An account as it is shown.
pub struct UserView {
    pub user_id: String,
    pub username: String,
    pub display_name: String,
    pub role: String,
    pub organization_id: String,
    pub status: String,
}

/// What a shown account holds.
#[verifier::ext_equal]
pub struct UserFields {
    pub user_id: Seq<char>,
    pub username: Seq<char>,
    pub display_name: Seq<char>,
    pub role: Seq<char>,
    pub organization_id: Seq<char>,
    pub status: Seq<char>,
}

impl View for UserView {
    type V = UserFields;

    open spec fn view(&self) -> UserFields {
        UserFields {
            user_id: self.user_id@,
            username: self.username@,
            display_name: self.display_name@,
            role: self.role@,
            organization_id: self.organization_id@,
            status: self.status@,
        }
    }
}

impl Duplicate for UserView {
    fn duplicate(&self) -> (r: Self) {
        UserView {
            user_id: self.user_id.clone(),
            username: self.username.clone(),
            display_name: self.display_name.clone(),
            role: self.role.clone(),
            organization_id: self.organization_id.clone(),
            status: self.status.clone(),
        }
    }
}

/// An account as it is stored.
pub struct UserAccount {
    pub user_id: String,
    pub username: String,
    pub password_hash: String,
    pub display_name: String,
    pub role: String,
    pub organization_id: String,
    pub status: String,
}

/// What a `UserAccount` holds.
#[verifier::ext_equal]
pub struct UserAccountView {
    pub user_id: Seq<char>,
    pub username: Seq<char>,
    pub password_hash: Seq<char>,
    pub display_name: Seq<char>,
    pub role: Seq<char>,
    pub organization_id: Seq<char>,
    pub status: Seq<char>,
}

impl View for UserAccount {
    type V = UserAccountView;

    open spec fn view(&self) -> UserAccountView {
        UserAccountView {
            user_id: self.user_id@,
            username: self.username@,
            password_hash: self.password_hash@,
            display_name: self.display_name@,
            role: self.role@,
            organization_id: self.organization_id@,
            status: self.status@,
        }
    }
}

impl Duplicate for UserAccount {
    fn duplicate(&self) -> (r: Self) {
        UserAccount {
            user_id: self.user_id.clone(),
            username: self.username.clone(),
            password_hash: self.password_hash.clone(),
            display_name: self.display_name.clone(),
            role: self.role.clone(),
            organization_id: self.organization_id.clone(),
            status: self.status.clone(),
        }
    }
}

/// A request for a new account.
pub struct CreateUserRequest {
    pub username: String,
    pub password: String,
    pub display_name: String,
    pub role: String,
    pub organization_id: Option<String>,
}

/// What a `CreateUserRequest` holds.
#[verifier::ext_equal]
pub struct CreateUserRequestView {
    pub username: Seq<char>,
    pub password: Seq<char>,
    pub display_name: Seq<char>,
    pub role: Seq<char>,
    pub organization_id: Option<Seq<char>>,
}

impl View for CreateUserRequest {
    type V = CreateUserRequestView;

    open spec fn view(&self) -> CreateUserRequestView {
        CreateUserRequestView {
            username: self.username@,
            password: self.password@,
            display_name: self.display_name@,
            role: self.role@,
            organization_id: text::opt_view(self.organization_id),
        }
    }
}

/// A request for a session.
pub struct LoginRequest {
    pub username: String,
    pub password: String,
}

/// What a `LoginRequest` holds.
#[verifier::ext_equal]
pub struct LoginRequestView {
    pub username: Seq<char>,
    pub password: Seq<char>,
}

impl View for LoginRequest {
    type V = LoginRequestView;

    open spec fn view(&self) -> LoginRequestView {
        LoginRequestView {
            username: self.username@,
            password: self.password@,
        }
    }
}

/// The roles that an account can have.
pub open spec fn is_fixed_role(role: Seq<char>) -> bool {
    is_platform_role(role) || is_provider_role(role)
}

/// The roles that may run the platform.
pub open spec fn is_platform_role(role: Seq<char>) -> bool {
    role == "platform_admin"@ || role == "platform_operator"@ || role == "platform_finance"@
}

/// The roles of a service provider, which see the provider's own data.
pub open spec fn is_provider_role(role: Seq<char>) -> bool {
    role == "provider_admin"@ || role == "provider_sales"@
}

/// Whether a role may run the platform.
fn platform_role(role: &str) -> (r: bool)
    ensures
        r == is_platform_role(role@),
{
    text::same(role, "platform_admin") || text::same(role, "platform_operator") || text::same(
        role,
        "platform_finance",
    )
}

/// Whether a role is one of a service provider.
fn provider_role(role: &str) -> (r: bool)
    ensures
        r == is_provider_role(role@),
{
    text::same(role, "provider_admin") || text::same(role, "provider_sales")
}

/// Whether an account can have a role.
pub fn fixed_role(role: &str) -> (r: bool)
    ensures
        r == is_fixed_role(role@),
{
    platform_role(role) || provider_role(role)
}

/// The token in an `Authorization` header of the form `Bearer <token>`.
pub open spec fn token_in(header: Option<Seq<char>>) -> Option<Seq<char>> {
    match header {
        Some(h) => if text::begins_with(h, "Bearer "@) {
            Some(h.skip("Bearer "@.len() as int))
        } else {
            None
        },
        None => None,
    }
}

/// The token in an `Authorization` header.
pub fn bearer_token(header: &Option<String>) -> (r: Option<String>)
    ensures
        text::opt_view(r) == token_in(text::opt_view(*header)),
{
    match header {
        Some(value) => text::strip_prefix(value.as_str(), "Bearer "),
        None => None,
    }
}

/// The value of a cookie in one part of a `Cookie` header: what follows the
/// first `=`, where the text before it is the name.
pub open spec fn cookie_in_part(part: Seq<char>, name: Seq<char>) -> Option<Seq<char>> {
    let p = text::trimmed(part);
    let at = p.index_of_first('=');
    match at {
        Some(i) => if p.take(i) == name {
            Some(p.skip(i + 1))
        } else {
            None
        },
        None => None,
    }
}

/// The value of a cookie in the first part that has it.
pub open spec fn first_cookie(parts: Seq<Seq<char>>, name: Seq<char>) -> Option<Seq<char>>
    decreases parts.len(),
{
    if parts.len() == 0 {
        None
    } else {
        match cookie_in_part(parts[0], name) {
            Some(value) => Some(value),
            None => first_cookie(parts.skip(1), name),
        }
    }
}

/// The value of a cookie in a `Cookie` header.
pub open spec fn cookie_in(header: Option<Seq<char>>, name: Seq<char>) -> Option<Seq<char>> {
    match header {
        Some(h) => first_cookie(text::split_on(h, ';'), name),
        None => None,
    }
}

/// Reads a cookie in one part of a header.
fn read_cookie(part: &str, name: &str) -> (r: Option<String>)
    ensures
        text::opt_view(r) == cookie_in_part(part@, name@),
{
    let plain = text::trim_owned(part);
    let chars = text::chars_of(plain.as_str());
    let mut i: usize = 0;
    while i < chars.len()
        invariant
            i <= chars@.len(),
            chars@ == plain@,
            plain@ == text::trimmed(part@),
            forall|k: int| 0 <= k < i ==> chars@[k] != '=',
        decreases chars@.len() - i,
    {
        if chars[i] == '=' {
            let key = text::text_of(&chars, 0, i);
            proof {
                assert(chars@.contains(chars@[i as int]));
                plain@.index_of_first_ensures('=');
                assert(key@ =~= plain@.take(i as int));
            }
            if text::same(key.as_str(), name) {
                let value = text::text_of(&chars, i + 1, chars.len());
                assert(value@ =~= plain@.skip(i + 1));
                return Some(value);
            }
            return None;
        }
        i = i + 1;
    }
    proof {
        plain@.index_of_first_ensures('=');
        assert(!plain@.contains('='));
    }
    None
}

/// The value of a cookie in a `Cookie` header.
pub fn cookie_value(header: &Option<String>, name: &str) -> (r: Option<String>)
    ensures
        text::opt_view(r) == cookie_in(text::opt_view(*header), name@),
{
    let value = match header {
        Some(value) => value,
        None => {
            return None;
        },
    };
    let parts = text::split(value.as_str(), ';');
    let ghost all = text::views(parts@);
    let mut i: usize = 0;
    assert(all.skip(0) =~= all);
    while i < parts.len()
        invariant
            i <= parts@.len(),
            all == text::views(parts@),
            cookie_in(text::opt_view(*header), name@) == first_cookie(all, name@),
            first_cookie(all, name@) == first_cookie(all.skip(i as int), name@),
        decreases parts@.len() - i,
    {
        assert(all.skip(i as int)[0] == parts@[i as int]@);
        let found = read_cookie(parts[i].as_str(), name);
        if found.is_some() {
            return found;
        }
        assert(all.skip(i as int).skip(1) =~= all.skip(i + 1));
        i = i + 1;
    }
    None
}

/// The sessions that are open, by session identifier.
pub type Sessions = TextMap<AuthenticatedUser>;

/// Who a `Cookie` header stands for.
pub open spec fn authenticated(
    cookie: Option<Seq<char>>,
    sessions: Map<Seq<char>, AuthenticatedUserView>,
) -> Result<AuthenticatedUserView, rejection::RejectionView> {
    match cookie_in(cookie, "license_center_session"@) {
        Some(id) => if sessions.contains_key(id) {
            Ok(sessions[id])
        } else {
            Err(rejection::refusal(rejection::UNAUTHORIZED, "请先登录"@))
        },
        None => Err(rejection::refusal(rejection::UNAUTHORIZED, "请先登录"@)),
    }
}

/// Who is logged in.
pub fn require_authenticated(cookie: &Option<String>, sessions: &Sessions) -> (r: Result<
    AuthenticatedUser,
    Rejection,
>)
    ensures
        rejection::outcome(r) == authenticated(text::opt_view(*cookie), sessions@),
{
    match cookie_value(cookie, "license_center_session") {
        Some(id) => match sessions.get(id.as_str()) {
            Some(user) => Ok(user.duplicate()),
            None => Err(refuse(rejection::UNAUTHORIZED, "请先登录")),
        },
        None => Err(refuse(rejection::UNAUTHORIZED, "请先登录")),
    }
}

/// Who may run the platform: a logged in account with a platform role.
pub open spec fn admitted(
    cookie: Option<Seq<char>>,
    sessions: Map<Seq<char>, AuthenticatedUserView>,
) -> Result<AuthenticatedUserView, rejection::RejectionView> {
    match authenticated(cookie, sessions) {
        Ok(user) => if is_platform_role(user.role) {
            Ok(user)
        } else {
            Err(rejection::refusal(rejection::FORBIDDEN, "当前账号没有平台运营权限"@))
        },
        Err(e) => Err(e),
    }
}

/// Admits accounts that may run the platform.
pub fn require_admin(cookie: &Option<String>, sessions: &Sessions) -> (r: Result<
    AuthenticatedUser,
    Rejection,
>)
    ensures
        rejection::outcome(r) == admitted(text::opt_view(*cookie), sessions@),
{
    match require_authenticated(cookie, sessions) {
        Ok(user) => if platform_role(user.role.as_str()) {
            Ok(user)
        } else {
            Err(refuse(rejection::FORBIDDEN, "当前账号没有平台运营权限"))
        },
        Err(e) => Err(e),
    }
}

/// Who may manage accounts: a logged in platform administrator.
pub open spec fn admitted_as_admin(
    cookie: Option<Seq<char>>,
    sessions: Map<Seq<char>, AuthenticatedUserView>,
) -> Result<AuthenticatedUserView, rejection::RejectionView> {
    match authenticated(cookie, sessions) {
        Ok(user) => if user.role == "platform_admin"@ {
            Ok(user)
        } else {
            Err(rejection::refusal(rejection::FORBIDDEN, "仅平台超级管理员可管理账号"@))
        },
        Err(e) => Err(e),
    }
}

/// Admits platform administrators.
pub fn require_platform_admin(cookie: &Option<String>, sessions: &Sessions) -> (r: Result<
    AuthenticatedUser,
    Rejection,
>)
    ensures
        rejection::outcome(r) == admitted_as_admin(text::opt_view(*cookie), sessions@),
{
    match require_authenticated(cookie, sessions) {
        Ok(user) => if text::same(user.role.as_str(), "platform_admin") {
            Ok(user)
        } else {
            Err(refuse(rejection::FORBIDDEN, "仅平台超级管理员可管理账号"))
        },
        Err(e) => Err(e),
    }
}

/// A platform administrator may do all that a platform role may do.
pub proof fn law_platform_admin_is_admitted(
    cookie: Option<Seq<char>>,
    sessions: Map<Seq<char>, AuthenticatedUserView>,
)
    ensures
        admitted_as_admin(cookie, sessions) is Ok ==> admitted(cookie, sessions)
            == admitted_as_admin(cookie, sessions),
{
}

/// An account of a service provider is never admitted to run the platform.
pub proof fn law_provider_is_not_admitted(
    cookie: Option<Seq<char>>,
    sessions: Map<Seq<char>, AuthenticatedUserView>,
)
    requires
        authenticated(cookie, sessions) is Ok,
        is_provider_role(authenticated(cookie, sessions)->Ok_0.role),
    ensures
        admitted(cookie, sessions) == Err::<AuthenticatedUserView, rejection::RejectionView>(
            rejection::refusal(rejection::FORBIDDEN, "当前账号没有平台运营权限"@),
        ),
        admitted_as_admin(cookie, sessions) is Err,
{
    reveal_strlit("platform_admin");
    reveal_strlit("platform_operator");
    reveal_strlit("platform_finance");
    reveal_strlit("provider_admin");
    reveal_strlit("provider_sales");
    let role = authenticated(cookie, sessions)->Ok_0.role;
    assert(role[1] == 'r');
    assert("platform_admin"@[1] == 'l');
    assert("platform_operator"@[1] == 'l');
    assert("platform_finance"@[1] == 'l');
}

/// The organization whose data a user is limited to, if any.
pub open spec fn scope_of(user: AuthenticatedUserView) -> Option<Seq<char>> {
    if is_provider_role(user.role) {
        Some(user.organization_id)
    } else {
        None
    }
}

/// The organization whose data a user is limited to, if any.
pub fn provider_scope(user: &AuthenticatedUser) -> (r: Option<String>)
    ensures
        text::opt_view(r) == scope_of(user@),
{
    if provider_role(user.role.as_str()) {
        Some(user.organization_id.clone())
    } else {
        None
    }
}

/// A record that belongs to a service provider, or to none.
pub trait ProviderOwned: View + Sized {
    /// The provider that the record belongs to.
    spec fn owner(record: Self::V) -> Option<Seq<char>>;

    /// Whether the record belongs to a provider.
    fn belongs_to(&self, provider: &str) -> (r: bool)
        ensures
            r == (Self::owner(self@) == Some(provider@)),
    ;
}

/// Whether a user sees a record: a provider's account sees that provider's.
pub open spec fn sees<T: ProviderOwned>(user: AuthenticatedUserView, record: T::V) -> bool {
    match scope_of(user) {
        Some(provider) => T::owner(record) == Some(provider),
        None => true,
    }
}

/// The records that a user sees, in their order.
pub fn visible_records<T: ProviderOwned>(user: &AuthenticatedUser, records: Vec<T>) -> (r: Vec<T>)
    ensures
        text::views(r@) == text::views(records@).filter(|x: T::V| sees::<T>(user@, x)),
{
    let ghost keep = |x: T::V| sees::<T>(user@, x);
    let ghost all = text::views(records@);
    let scope = provider_scope(user);
    let ghost items = records@;
    let mut out: Vec<T> = Vec::new();
    assert(all.take(0).filter(keep) =~= Seq::<T::V>::empty());
    for item in it: records
        invariant
            it.seq() == items,
            all == text::views(items),
            keep == (|x: T::V| sees::<T>(user@, x)),
            text::opt_view(scope) == scope_of(user@),
            text::views(out@) == all.take(it.index() as int).filter(keep),
    {
        proof {
            let at = it.index() as int;
            assert(all[at] == item@);
            assert(all.take(at + 1) =~= all.take(at).push(item@));
            all.take(at).lemma_filter_push(item@, keep);
        }
        let shown = match &scope {
            Some(provider) => item.belongs_to(provider.as_str()),
            None => true,
        };
        assert(shown == keep(item@));
        if shown {
            proof {
                text::lemma_views_push(out@, item);
            }
            out.push(item);
        }
    }
    assert(all.take(all.len() as int) =~= all);
    out
}

/// A provider's account sees nothing but that provider's records.
pub proof fn law_provider_sees_own_records_only<T: ProviderOwned>(
    user: AuthenticatedUserView,
    records: Seq<T::V>,
    i: int,
)
    requires
        is_provider_role(user.role),
        0 <= i < records.filter(|x: T::V| sees::<T>(user, x)).len(),
    ensures
        T::owner(records.filter(|x: T::V| sees::<T>(user, x))[i]) == Some(user.organization_id),
{
    records.lemma_filter_pred(|x: T::V| sees::<T>(user, x), i);
}

/// The active account with a user name, if there is one.
pub open spec fn active_account(
    accounts: Seq<UserAccountView>,
    username: Seq<char>,
) -> Option<UserAccountView>
    decreases accounts.len(),
{
    if accounts.len() == 0 {
        None
    } else if accounts[0].username == username {
        if accounts[0].status == "active"@ {
            Some(accounts[0])
        } else {
            None
        }
    } else {
        active_account(accounts.skip(1), username)
    }
}

/// Finds the active account with a user name.
fn find_account(accounts: &Vec<UserAccount>, username: &str) -> (r: Option<usize>)
    ensures
        match r {
            Some(i) => i < accounts@.len() && active_account(text::views(accounts@), username@)
                == Some(accounts@[i as int]@),
            None => active_account(text::views(accounts@), username@) is None,
        },
{
    let ghost all = text::views(accounts@);
    let mut i: usize = 0;
    assert(all.skip(0) =~= all);
    while i < accounts.len()
        invariant
            i <= accounts@.len(),
            all == text::views(accounts@),
            active_account(all, username@) == active_account(all.skip(i as int), username@),
        decreases accounts@.len() - i,
    {
        assert(all.skip(i as int)[0] == accounts@[i as int]@);
        if text::same(accounts[i].username.as_str(), username) {
            if text::same(accounts[i].status.as_str(), "active") {
                return Some(i);
            }
            return None;
        }
        assert(all.skip(i as int).skip(1) =~= all.skip(i + 1));
        i = i + 1;
    }
    None
}

/// Whether an account may log in with what a request holds, and who it is.
pub open spec fn login_outcome(
    request: LoginRequestView,
    accounts: Seq<UserAccountView>,
) -> Result<AuthenticatedUserView, rejection::RejectionView> {
    match active_account(accounts, text::trimmed(request.username)) {
        Some(account) => if passwords::password_accepted(
            request.password,
            account.password_hash,
        ) {
            Ok(
                AuthenticatedUserView {
                    user_id: account.user_id,
                    role: account.role,
                    organization_id: account.organization_id,
                },
            )
        } else {
            Err(rejection::refusal(rejection::UNAUTHORIZED, "账号或密码错误"@))
        },
        None => Err(rejection::refusal(rejection::UNAUTHORIZED, "账号或密码错误"@)),
    }
}

/// Who is logged in, given the account with the user name, if it is there, and
/// whether it takes the password.
pub fn admit_login(account: Option<&UserAccount>, accepted: bool) -> (r: Result<
    AuthenticatedUser,
    Rejection,
>)
    ensures
        rejection::outcome(r) == (match account {
            Some(a) => if accepted {
                Ok(
                    AuthenticatedUserView {
                        user_id: a@.user_id,
                        role: a@.role,
                        organization_id: a@.organization_id,
                    },
                )
            } else {
                Err(rejection::refusal(rejection::UNAUTHORIZED, "账号或密码错误"@))
            },
            None => Err(rejection::refusal(rejection::UNAUTHORIZED, "账号或密码错误"@)),
        }),
{
    match account {
        Some(a) => if accepted {
            Ok(
                AuthenticatedUser {
                    user_id: a.user_id.clone(),
                    role: a.role.clone(),
                    organization_id: a.organization_id.clone(),
                },
            )
        } else {
            Err(refuse(rejection::UNAUTHORIZED, "账号或密码错误"))
        },
        None => Err(refuse(rejection::UNAUTHORIZED, "账号或密码错误")),
    }
}

/// Checks the user name and password of a request.
pub fn log_in(request: &LoginRequest, accounts: &Vec<UserAccount>) -> (r: Result<
    AuthenticatedUser,
    Rejection,
>)
    ensures
        rejection::outcome(r) == login_outcome(request@, text::views(accounts@)),
{
    let username = text::trim_owned(request.username.as_str());
    match find_account(accounts, username.as_str()) {
        Some(i) => {
            let accepted = passwords::accepts(
                request.password.as_str(),
                accounts[i].password_hash.as_str(),
            );
            admit_login(Some(&accounts[i]), accepted)
        },
        None => admit_login(None, false),
    }
}

/// The `Set-Cookie` header of a session.
pub open spec fn session_cookie(id: Seq<char>) -> Seq<char> {
    "license_center_session="@ + id + "; HttpOnly; Path=/; SameSite=Lax; Max-Age=604800"@
}

/// Opens a session with a given identifier and gives its `Set-Cookie` header.
pub fn open_session(id: String, user: AuthenticatedUser, sessions: &mut Sessions) -> (r: String)
    ensures
        final(sessions)@ == old(sessions)@.insert(id@, user@),
        r@ == session_cookie(id@),
{
    let cookie = text::join3(
        "license_center_session=",
        id.as_str(),
        "; HttpOnly; Path=/; SameSite=Lax; Max-Age=604800",
    );
    sessions.insert(id, user);
    cookie
}

/// Opens a session for the account that a request logs in to. A refused
/// request opens none.
pub fn create_session(
    request: &LoginRequest,
    accounts: &Vec<UserAccount>,
    sessions: &mut Sessions,
) -> (r: Result<(AuthenticatedUser, String), Rejection>)
    ensures
        match r {
            Ok((user, cookie)) => {
                &&& login_outcome(request@, text::views(accounts@)) == Ok::<
                    AuthenticatedUserView,
                    rejection::RejectionView,
                >(user@)
                &&& exists|id: Seq<char>| #[trigger]
                    ids::is_record_id(id, ""@) && cookie@ == session_cookie(id)
                        && final(sessions)@ == old(sessions)@.insert(id, user@)
            },
            Err(e) => {
                &&& login_outcome(request@, text::views(accounts@)) == Err::<
                    AuthenticatedUserView,
                    rejection::RejectionView,
                >(e@)
                &&& final(sessions)@ == old(sessions)@
            },
        },
{
    match log_in(request, accounts) {
        Ok(user) => {
            let id = ids::generated_record_id("");
            let ghost id_text = id@;
            let shown = user.duplicate();
            let cookie = open_session(id, user, sessions);
            assert(ids::is_record_id(id_text, ""@));
            Ok((shown, cookie))
        },
        Err(e) => Err(e),
    }
}

/// The cookie of a session that was opened stands for the user of the session.
pub proof fn law_session_cookie_is_recognized(
    id: Seq<char>,
    user: AuthenticatedUserView,
    sessions: Map<Seq<char>, AuthenticatedUserView>,
)
    requires
        ids::is_record_id(id, ""@),
    ensures
        authenticated(Some("license_center_session="@ + id), sessions.insert(id, user)) == Ok::<
            AuthenticatedUserView,
            rejection::RejectionView,
        >(user),
{
    reveal_strlit("license_center_session=");
    reveal_strlit("license_center_session");
    reveal_strlit("");
    let bytes = choose|bytes: Seq<u8>| #[trigger]
        ids::is_random_uuid(bytes) && id == ""@ + ids::hex(bytes);
    assert(id =~= ids::hex(bytes));
    ids::lemma_hex_plain(bytes);
    let name = "license_center_session"@;
    let head = "license_center_session="@;
    let h = head + id;
    assert(head =~= name.push('='));
    assert forall|i: int| 0 <= i < h.len() implies h[i] != ';' by {
        if i >= head.len() {
            assert(ids::is_hex_digit(id[i - head.len()]));
        }
    }
    assert(!h.contains(';'));
    text::lemma_split_single(h, ';');
    assert(h.last() == id.last());
    assert(ids::is_hex_digit(id[id.len() - 1]));
    text::lemma_trimmed_keeps(h);
    h.index_of_first_ensures('=');
    assert(h[head.len() - 1] == '=');
    assert(h.contains(h[head.len() - 1]));
    let at = h.index_of_first('=')->0;
    assert(at == name.len());
    assert(h.take(at) =~= name);
    assert(h.skip(at + 1) =~= id);
    assert(text::split_on(h, ';')[0] == h);
}

/// The account with an identifier, as it is shown.
pub open spec fn shown_account(
    accounts: Seq<UserAccountView>,
    user_id: Seq<char>,
) -> Result<UserFields, rejection::RejectionView>
    decreases accounts.len(),
{
    if accounts.len() == 0 {
        Err(rejection::refusal(rejection::UNAUTHORIZED, "账号不存在或已失效"@))
    } else if accounts[0].user_id == user_id {
        Ok(shown(accounts[0]))
    } else {
        shown_account(accounts.skip(1), user_id)
    }
}

/// Shows the account with an identifier.
pub fn user_view(accounts: &Vec<UserAccount>, user_id: &str) -> (r: Result<UserView, Rejection>)
    ensures
        rejection::outcome(r) == shown_account(text::views(accounts@), user_id@),
{
    let ghost all = text::views(accounts@);
    let mut i: usize = 0;
    assert(all.skip(0) =~= all);
    while i < accounts.len()
        invariant
            i <= accounts@.len(),
            all == text::views(accounts@),
            shown_account(all, user_id@) == shown_account(all.skip(i as int), user_id@),
        decreases accounts@.len() - i,
    {
        assert(all.skip(i as int)[0] == accounts@[i as int]@);
        if text::same(accounts[i].user_id.as_str(), user_id) {
            return Ok(show_account(&accounts[i]));
        }
        assert(all.skip(i as int).skip(1) =~= all.skip(i + 1));
        i = i + 1;
    }
    Err(refuse(rejection::UNAUTHORIZED, "账号不存在或已失效"))
}

/// The account that a `Cookie` header stands for, as it is shown.
pub fn session_status(
    cookie: &Option<String>,
    sessions: &Sessions,
    accounts: &Vec<UserAccount>,
) -> (r: Result<UserView, Rejection>)
    ensures
        rejection::outcome(r) == (match authenticated(text::opt_view(*cookie), sessions@) {
            Ok(user) => shown_account(text::views(accounts@), user.user_id),
            Err(e) => Err(e),
        }),
{
    match require_authenticated(cookie, sessions) {
        Ok(user) => user_view(accounts, user.user_id.as_str()),
        Err(e) => Err(e),
    }
}

/// An account as it is shown.
pub open spec fn shown(account: UserAccountView) -> UserFields {
    UserFields {
        user_id: account.user_id,
        username: account.username,
        display_name: account.display_name,
        role: account.role,
        organization_id: account.organization_id,
        status: account.status,
    }
}

/// Accounts as they are shown: without their password hashes.
pub fn list_users(accounts: &Vec<UserAccount>) -> (r: Vec<UserView>)
    ensures
        text::views(r@) == text::views(accounts@).map_values(|a: UserAccountView| shown(a)),
{
    let ghost all = text::views(accounts@).map_values(|a: UserAccountView| shown(a));
    let mut out: Vec<UserView> = Vec::new();
    let mut i: usize = 0;
    assert(text::views(out@) =~= all.take(0));
    while i < accounts.len()
        invariant
            i <= accounts@.len(),
            all == text::views(accounts@).map_values(|a: UserAccountView| shown(a)),
            text::views(out@) == all.take(i as int),
        decreases accounts@.len() - i,
    {
        let user = show_account(&accounts[i]);
        proof {
            text::lemma_views_push(out@, user);
            assert(all[i as int] == user@);
            assert(all.take(i + 1) =~= all.take(i as int).push(user@));
        }
        out.push(user);
        i = i + 1;
    }
    assert(all.take(all.len() as int) =~= all);
    out
}

/// Shows an account.
fn show_account(account: &UserAccount) -> (r: UserView)
    ensures
        r@ == shown(account@),
{
    UserView {
        user_id: account.user_id.clone(),
        username: account.username.clone(),
        display_name: account.display_name.clone(),
        role: account.role.clone(),
        organization_id: account.organization_id.clone(),
        status: account.status.clone(),
    }
}

/// Whether a character may stand in a user name.
pub open spec fn is_name_char(c: char) -> bool {
    ||| 'a' <= c <= 'z'
    ||| 'A' <= c <= 'Z'
    ||| '0' <= c <= '9'
    ||| c == '_'
    ||| c == '-'
    ||| c == '.'
}

/// Whether a text may be a user name: 3 to 64 letters, digits and `_-.`.
pub open spec fn is_username(s: Seq<char>) -> bool {
    3 <= s.len() <= 64 && forall|i: int| 0 <= i < s.len() ==> is_name_char(#[trigger] s[i])
}

/// Whether a text may be a user name.
fn valid_username(name: &str) -> (r: bool)
    ensures
        r == is_username(name@),
{
    let chars = text::chars_of(name);
    if chars.len() < 3 || chars.len() > 64 {
        return false;
    }
    let mut i: usize = 0;
    while i < chars.len()
        invariant
            i <= chars@.len(),
            chars@ == name@,
            forall|k: int| 0 <= k < i ==> is_name_char(#[trigger] chars@[k]),
        decreases chars@.len() - i,
    {
        let c = chars[i];
        if !(('a' <= c && c <= 'z') || ('A' <= c && c <= 'Z') || ('0' <= c && c <= '9') || c == '_'
            || c == '-' || c == '.') {
            assert(!is_name_char(name@[i as int]));
            return false;
        }
        i = i + 1;
    }
    true
}

/// What is wrong with a request for a new account, if anything.
pub open spec fn user_request_flaw(request: CreateUserRequestView) -> Option<
    rejection::RejectionView,
> {
    if !is_username(text::trimmed(request.username)) {
        Some(rejection::refusal(rejection::BAD_REQUEST, "账号仅支持 3-64 位字母、数字及 _-."@))
    } else if request.password.len() == 0 {
        Some(rejection::refusal(rejection::BAD_REQUEST, "初始密码不能为空"@))
    } else if !is_fixed_role(request.role) {
        Some(rejection::refusal(rejection::BAD_REQUEST, "角色不在固定角色范围内"@))
    } else {
        None
    }
}

/// Looks for what is wrong with a request for a new account.
pub fn check_user_request(request: &CreateUserRequest) -> (r: Option<Rejection>)
    ensures
        text::opt_view(r) == user_request_flaw(request@),
{
    if !valid_username(text::trim_owned(request.username.as_str()).as_str()) {
        Some(refuse(rejection::BAD_REQUEST, "账号仅支持 3-64 位字母、数字及 _-."))
    } else if request.password.as_str().is_empty() {
        Some(refuse(rejection::BAD_REQUEST, "初始密码不能为空"))
    } else if !fixed_role(request.role.as_str()) {
        Some(refuse(rejection::BAD_REQUEST, "角色不在固定角色范围内"))
    } else {
        None
    }
}

/// Whether a user name is taken.
pub open spec fn username_taken(accounts: Seq<UserAccountView>, username: Seq<char>) -> bool {
    exists|i: int| 0 <= i < accounts.len() && (#[trigger] accounts[i]).username == username
}

/// Whether a user name is taken.
fn is_taken(accounts: &Vec<UserAccount>, username: &str) -> (r: bool)
    ensures
        r == username_taken(text::views(accounts@), username@),
{
    let mut i: usize = 0;
    while i < accounts.len()
        invariant
            i <= accounts@.len(),
            forall|k: int| 0 <= k < i ==> (#[trigger] accounts@[k]).username@ != username@,
        decreases accounts@.len() - i,
    {
        if text::same(accounts[i].username.as_str(), username) {
            assert(text::views(accounts@)[i as int].username == username@);
            return true;
        }
        i = i + 1;
    }
    assert forall|k: int| 0 <= k < text::views(accounts@).len() implies (#[trigger] text::views(
        accounts@,
    )[k]).username != username@ by {
        assert(accounts@[k].username@ != username@);
    }
    false
}

/// What a request for a new account comes to, given the identifier and the
/// password hash that were made for it.
pub open spec fn new_user_outcome(
    request: CreateUserRequestView,
    accounts: Seq<UserAccountView>,
    user_id: Seq<char>,
    password_hash: Option<Seq<char>>,
) -> Result<UserAccountView, rejection::RejectionView> {
    match user_request_flaw(request) {
        Some(flaw) => Err(flaw),
        None => match password_hash {
            None => Err(rejection::refusal(rejection::INTERNAL_SERVER_ERROR, "密码处理失败"@)),
            Some(hash) => if username_taken(accounts, text::trimmed(request.username)) {
                Err(rejection::refusal(rejection::CONFLICT, "账号已存在"@))
            } else {
                Ok(
                    UserAccountView {
                        user_id,
                        username: text::trimmed(request.username),
                        password_hash: hash,
                        display_name: text::trimmed(request.display_name),
                        role: request.role,
                        organization_id: match request.organization_id {
                            Some(id) => id,
                            None => "platform"@,
                        },
                        status: "active"@,
                    },
                )
            },
        },
    }
}

/// The account that a request asks for, with a given identifier and password
/// hash.
pub fn new_user(
    request: &CreateUserRequest,
    accounts: &Vec<UserAccount>,
    user_id: String,
    password_hash: Option<String>,
) -> (r: Result<UserAccount, Rejection>)
    ensures
        rejection::outcome(r) == new_user_outcome(
            request@,
            text::views(accounts@),
            user_id@,
            text::opt_view(password_hash),
        ),
{
    match check_user_request(request) {
        Some(flaw) => {
            return Err(flaw);
        },
        None => {},
    }
    let hash = match password_hash {
        Some(hash) => hash,
        None => {
            return Err(refuse(rejection::INTERNAL_SERVER_ERROR, "密码处理失败"));
        },
    };
    let username = text::trim_owned(request.username.as_str());
    if is_taken(accounts, username.as_str()) {
        return Err(refuse(rejection::CONFLICT, "账号已存在"));
    }
    Ok(
        UserAccount {
            user_id,
            username,
            password_hash: hash,
            display_name: text::trim_owned(request.display_name.as_str()),
            role: request.role.clone(),
            organization_id: match &request.organization_id {
                Some(id) => id.clone(),
                None => "platform".to_string(),
            },
            status: "active".to_string(),
        },
    )
}

/// The account that a request asks for, with a new identifier and a hash of
/// its password.
pub fn create_user(request: &CreateUserRequest, accounts: &Vec<UserAccount>) -> (r: Result<
    UserAccount,
    Rejection,
>)
    ensures
        exists|user_id: Seq<char>, salt: Seq<u8>|
            ids::is_resource_id(user_id, "usr"@) && ids::is_random_uuid(salt)
                && rejection::outcome(r) == #[trigger] new_user_outcome(
                request@,
                text::views(accounts@),
                user_id,
                passwords::hash_if_any(passwords::password_hash_of(request.password@, salt)),
            ),
        r matches Ok(account) ==> passwords::password_accepted(
            request.password@,
            account.password_hash@,
        ),
{
    let user_id = ids::generated_resource_id("usr");
    let hash = passwords::hash_password(request.password.as_str());
    let ghost hash_text = text::opt_view(hash);
    let ghost id_text = user_id@;
    proof {
        let salt = choose|salt: Seq<u8>| #[trigger]
            ids::is_random_uuid(salt) && hash_text == passwords::hash_if_any(
                passwords::password_hash_of(request.password@, salt),
            );
        assert(hash_text == passwords::hash_if_any(
            passwords::password_hash_of(request.password@, salt),
        ));
    }
    new_user(request, accounts, user_id, hash)
}

proof fn lemma_account_at_end(accounts: Seq<UserAccountView>, account: UserAccountView)
    requires
        !username_taken(accounts, account.username),
        account.status == "active"@,
    ensures
        active_account(accounts.push(account), account.username) == Some(account),
    decreases accounts.len(),
{
    let all = accounts.push(account);
    if accounts.len() > 0 {
        assert(accounts[0].username != account.username);
        let rest = accounts.skip(1);
        assert forall|i: int| 0 <= i < rest.len() implies (#[trigger] rest[i]).username
            != account.username by {
            assert(accounts[i + 1].username != account.username);
        }
        lemma_account_at_end(rest, account);
        assert(all.skip(1) =~= rest.push(account));
    }
}

/// An account that was made can log in with the user name and password it was
/// made with, and becomes the user that was asked for.
pub proof fn law_created_user_can_log_in(
    request: CreateUserRequestView,
    accounts: Seq<UserAccountView>,
    account: UserAccountView,
    user_id: Seq<char>,
    hash: Seq<char>,
)
    requires
        new_user_outcome(request, accounts, user_id, Some(hash)) == Ok::<
            UserAccountView,
            rejection::RejectionView,
        >(account),
        passwords::password_accepted(request.password, hash),
    ensures
        login_outcome(
            LoginRequestView { username: request.username, password: request.password },
            accounts.push(account),
        ) == Ok::<AuthenticatedUserView, rejection::RejectionView>(
            AuthenticatedUserView {
                user_id,
                role: request.role,
                organization_id: account.organization_id,
            },
        ),
{
    lemma_account_at_end(accounts, account);
}

/// The roles are those of the platform, three in number, and those of a service
/// provider, of which there are two. None is both.
pub proof fn law_roles_are_fixed(role: Seq<char>)
    ensures
        is_platform_role(role) <==> role == "platform_admin"@ || role == "platform_operator"@
            || role == "platform_finance"@,
        is_provider_role(role) <==> role == "provider_admin"@ || role == "provider_sales"@,
        is_fixed_role(role) <==> is_platform_role(role) || is_provider_role(role),
        !(is_platform_role(role) && is_provider_role(role)),
{
    reveal_strlit("platform_admin");
    reveal_strlit("platform_operator");
    reveal_strlit("platform_finance");
    reveal_strlit("provider_admin");
    reveal_strlit("provider_sales");
    assert("platform_admin"@[1] == 'l');
    assert("platform_operator"@[1] == 'l');
    assert("platform_finance"@[1] == 'l');
    assert("provider_admin"@[1] == 'r');
    assert("provider_sales"@[1] == 'r');
}

/// A new account has the user name, the name, the role and the organization of the
/// request, or the platform where that names no organization. It has the hash that
/// was made of the password and is active.
pub proof fn law_new_user_is_as_requested(
    request: CreateUserRequestView,
    accounts: Seq<UserAccountView>,
    user_id: Seq<char>,
    password_hash: Option<Seq<char>>,
)
    ensures
        new_user_outcome(request, accounts, user_id, password_hash) matches Ok(account) ==> {
            &&& account.user_id == user_id
            &&& account.username == text::trimmed(request.username)
            &&& Some(account.password_hash) == password_hash
            &&& account.display_name == text::trimmed(request.display_name)
            &&& account.role == request.role
            &&& request.organization_id is Some ==> Some(account.organization_id)
                == request.organization_id
            &&& request.organization_id is None ==> account.organization_id == "platform"@
            &&& account.status == "active"@
        },
{
}

/// An account is made exactly where the user name has 3 to 64 letters, digits and
/// signs of a few and is not taken, the password is not empty and could be hashed,
/// and the role is one of the fixed ones.
pub proof fn law_user_is_made_when_the_request_is_sound(
    request: CreateUserRequestView,
    accounts: Seq<UserAccountView>,
    user_id: Seq<char>,
    password_hash: Option<Seq<char>>,
)
    ensures
        new_user_outcome(request, accounts, user_id, password_hash) is Ok <==> {
            let name = text::trimmed(request.username);
            &&& 3 <= name.len() <= 64
            &&& forall|i: int|
                0 <= i < name.len() ==> {
                    let c = #[trigger] name[i];
                    'a' <= c <= 'z' || 'A' <= c <= 'Z' || '0' <= c <= '9' || c == '_' || c == '-'
                        || c == '.'
                }
            &&& forall|i: int|
                0 <= i < accounts.len() ==> (#[trigger] accounts[i]).username != name
            &&& request.password.len() >= 1
            &&& password_hash is Some
            &&& request.role == "platform_admin"@ || request.role == "platform_operator"@
                || request.role == "platform_finance"@ || request.role == "provider_admin"@
                || request.role == "provider_sales"@
        },
{
    let name = text::trimmed(request.username);
    assert(is_username(name) <==> 3 <= name.len() <= 64 && forall|i: int|
        0 <= i < name.len() ==> {
            let c = #[trigger] name[i];
            'a' <= c <= 'z' || 'A' <= c <= 'Z' || '0' <= c <= '9' || c == '_' || c == '-' || c
                == '.'
        }) by {
        if is_username(name) {
            assert forall|i: int| 0 <= i < name.len() implies {
                let c = #[trigger] name[i];
                'a' <= c <= 'z' || 'A' <= c <= 'Z' || '0' <= c <= '9' || c == '_' || c == '-'
                    || c == '.'
            } by {
                assert(is_name_char(name[i]));
            }
        }
    }
}

/// Whoever logs in becomes the user of an active account with that user name, whose
/// password was accepted, with the role and the organization of the account.
pub proof fn law_login_is_for_an_active_account(
    request: LoginRequestView,
    accounts: Seq<UserAccountView>,
)
    ensures
        login_outcome(request, accounts) matches Ok(user) ==> exists|i: int|
            {
                &&& 0 <= i < accounts.len()
                &&& (#[trigger] accounts[i]).username == text::trimmed(request.username)
                &&& accounts[i].status == "active"@
                &&& passwords::password_accepted(request.password, accounts[i].password_hash)
                &&& user.user_id == accounts[i].user_id
                &&& user.role == accounts[i].role
                &&& user.organization_id == accounts[i].organization_id
            },
{
    let name = text::trimmed(request.username);
    lemma_active_account(accounts, name);
}

proof fn lemma_active_account(accounts: Seq<UserAccountView>, username: Seq<char>)
    ensures
        active_account(accounts, username) matches Some(account) ==> exists|i: int|
            0 <= i < accounts.len() && #[trigger] accounts[i] == account && account.username
                == username && account.status == "active"@,
    decreases accounts.len(),
{
    if accounts.len() > 0 {
        if accounts[0].username != username {
            let rest = accounts.skip(1);
            lemma_active_account(rest, username);
            match active_account(rest, username) {
                Some(account) => {
                    let i = choose|i: int|
                        0 <= i < rest.len() && #[trigger] rest[i] == account && account.username
                            == username && account.status == "active"@;
                    assert(accounts[i + 1] == account);
                },
                None => {},
            }
        }
    }
}

/// An active account that is the first with its user name logs in with exactly the
/// passwords that its hash accepts, and one that is not active with none.
pub proof fn law_active_account_can_log_in(
    request: LoginRequestView,
    accounts: Seq<UserAccountView>,
    i: int,
)
    requires
        0 <= i < accounts.len(),
        accounts[i].username == text::trimmed(request.username),
        forall|j: int|
            0 <= j < i ==> (#[trigger] accounts[j]).username != text::trimmed(request.username),
    ensures
        login_outcome(request, accounts) is Ok <==> accounts[i].status == "active"@
            && passwords::password_accepted(request.password, accounts[i].password_hash),
{
    let name = text::trimmed(request.username);
    lemma_first_account(accounts, name, i);
}

proof fn lemma_first_account(accounts: Seq<UserAccountView>, username: Seq<char>, i: int)
    requires
        0 <= i < accounts.len(),
        accounts[i].username == username,
        forall|j: int| 0 <= j < i ==> (#[trigger] accounts[j]).username != username,
    ensures
        active_account(accounts, username) == (if accounts[i].status == "active"@ {
            Some(accounts[i])
        } else {
            None
        }),
    decreases i,
{
    if i > 0 {
        assert(accounts[0].username != username);
        let rest = accounts.skip(1);
        assert(rest[i - 1] == accounts[i]);
        assert forall|j: int| 0 <= j < i - 1 implies (#[trigger] rest[j]).username != username by {
            assert(rest[j] == accounts[j + 1]);
        }
        lemma_first_account(rest, username, i - 1);
    }
}

/// The header `Bearer` and a token hold the token, and no other header holds one.
pub proof fn law_bearer_header_holds_the_token(token: Seq<char>, header: Seq<char>)
    ensures
        token_in(Some("Bearer "@ + token)) == Some(token),
        token_in(Some(header)) matches Some(t) ==> header == "Bearer "@ + t,
        token_in(None) is None,
{
    let prefix = "Bearer "@;
    let full = prefix + token;
    assert(full.take(prefix.len() as int) =~= prefix);
    assert(full.skip(prefix.len() as int) =~= token);
    if text::begins_with(header, prefix) {
        assert(header =~= header.take(prefix.len() as int) + header.skip(prefix.len() as int));
    }
}

/// Whoever is admitted to run the platform, or to manage accounts, has a session
/// and a role for it; whoever has both is admitted.
pub proof fn law_admission_goes_by_the_role(
    cookie: Option<Seq<char>>,
    sessions: Map<Seq<char>, AuthenticatedUserView>,
)
    ensures
        match cookie_in(cookie, "license_center_session"@) {
            Some(id) => sessions.contains_key(id) ==> {
                let user = sessions[id];
                &&& authenticated(cookie, sessions) == Ok::<
                    AuthenticatedUserView,
                    rejection::RejectionView,
                >(user)
                &&& admitted(cookie, sessions) is Ok <==> user.role == "platform_admin"@
                    || user.role == "platform_operator"@ || user.role == "platform_finance"@
                &&& admitted(cookie, sessions) matches Ok(u) ==> u == user
                &&& admitted_as_admin(cookie, sessions) is Ok <==> user.role == "platform_admin"@
                &&& admitted_as_admin(cookie, sessions) matches Ok(u) ==> u == user
            },
            None => true,
        },
        authenticated(cookie, sessions) is Ok <==> (cookie_in(
            cookie,
            "license_center_session"@,
        ) matches Some(id) && sessions.contains_key(id)),
        authenticated(cookie, sessions) is Err ==> admitted(cookie, sessions) is Err
            && admitted_as_admin(cookie, sessions) is Err,
{
}

/// An account of a service provider is limited to its organization, and one of the
/// platform to none.
pub proof fn law_provider_is_limited_to_its_organization(user: AuthenticatedUserView)
    ensures
        scope_of(user) == (if user.role == "provider_admin"@ || user.role == "provider_sales"@ {
            Some(user.organization_id)
        } else {
            None
        }),
{
}

/// An account is shown with all that it is but its password.
pub proof fn law_account_is_shown_as_it_is(accounts: Seq<UserAccountView>, user_id: Seq<char>)
    ensures
        shown_account(accounts, user_id) matches Ok(fields) ==> exists|i: int|
            {
                &&& 0 <= i < accounts.len()
                &&& (#[trigger] accounts[i]).user_id == user_id
                &&& fields.user_id == user_id
                &&& fields.username == accounts[i].username
                &&& fields.display_name == accounts[i].display_name
                &&& fields.role == accounts[i].role
                &&& fields.organization_id == accounts[i].organization_id
                &&& fields.status == accounts[i].status
            },
        shown_account(accounts, user_id) is Ok <==> exists|i: int|
            0 <= i < accounts.len() && (#[trigger] accounts[i]).user_id == user_id,
    decreases accounts.len(),
{
    if accounts.len() > 0 {
        if accounts[0].user_id != user_id {
            let rest = accounts.skip(1);
            law_account_is_shown_as_it_is(rest, user_id);
            match shown_account(rest, user_id) {
                Ok(fields) => {
                    let i = choose|i: int|
                        {
                            &&& 0 <= i < rest.len()
                            &&& (#[trigger] rest[i]).user_id == user_id
                            &&& fields.user_id == user_id
                            &&& fields.username == rest[i].username
                            &&& fields.display_name == rest[i].display_name
                            &&& fields.role == rest[i].role
                            &&& fields.organization_id == rest[i].organization_id
                            &&& fields.status == rest[i].status
                        };
                    assert(accounts[i + 1] == rest[i]);
                },
                Err(_) => {
                    assert forall|i: int| 0 <= i < accounts.len() implies (
                    #[trigger] accounts[i]).user_id != user_id by {
                        if i > 0 {
                            assert(rest[i - 1] == accounts[i]);
                        }
                    }
                },
            }
        }
    }
}

/// Whoever has no session or the wrong password is told to log in, and whoever has
/// the wrong role that it is not for them. An account that is not made is a bad
/// request, unless its user name is taken or its password could not be hashed.
pub proof fn law_refused_user_is_told_why(
    cookie: Option<Seq<char>>,
    sessions: Map<Seq<char>, AuthenticatedUserView>,
    login: LoginRequestView,
    request: CreateUserRequestView,
    accounts: Seq<UserAccountView>,
    user_id: Seq<char>,
    password_hash: Option<Seq<char>>,
)
    ensures
        authenticated(cookie, sessions) matches Err(e) ==> e.status == 401,
        admitted(cookie, sessions) matches Err(e) ==> {
            if authenticated(cookie, sessions) is Ok {
                e.status == 403
            } else {
                e.status == 401
            }
        },
        admitted_as_admin(cookie, sessions) matches Err(e) ==> {
            if authenticated(cookie, sessions) is Ok {
                e.status == 403
            } else {
                e.status == 401
            }
        },
        login_outcome(login, accounts) matches Err(e) ==> e.status == 401,
        new_user_outcome(request, accounts, user_id, password_hash) matches Err(e) ==> {
            &&& e.status == 400 <==> user_request_flaw(request) is Some
            &&& user_request_flaw(request) is None && password_hash is None ==> e.status == 500
            &&& user_request_flaw(request) is None && password_hash is Some ==> e.status == 409
        },
{
}

proof fn lemma_first_cookie_push(parts: Seq<Seq<char>>, part: Seq<char>, name: Seq<char>)
    ensures
        first_cookie(parts.push(part), name) == (match first_cookie(parts, name) {
            Some(value) => Some(value),
            None => cookie_in_part(part, name),
        }),
    decreases parts.len(),
{
    let all = parts.push(part);
    if parts.len() == 0 {
        assert(all.skip(1) =~= Seq::<Seq<char>>::empty());
        assert(first_cookie(all.skip(1), name) is None);
    } else {
        lemma_first_cookie_push(parts.skip(1), part, name);
        assert(all.skip(1) =~= parts.skip(1).push(part));
    }
}

/// Of the cookies in a header, which have semicolons between them, the first one with
/// the name counts.
pub proof fn law_first_cookie_counts(before: Seq<char>, last: Seq<char>, name: Seq<char>)
    requires
        !last.contains(';'),
    ensures
        cookie_in(Some(before.push(';') + last), name) == (match cookie_in(Some(before), name) {
            Some(value) => Some(value),
            None => cookie_in(Some(last), name),
        }),
        cookie_in(None, name) is None,
{
    text::lemma_split_last(before, last, ';');
    text::lemma_split_single(last, ';');
    let parts = text::split_on(before, ';');
    lemma_first_cookie_push(parts, last, name);
    lemma_first_cookie_push(Seq::empty(), last, name);
    assert(Seq::<Seq<char>>::empty().push(last) =~= seq![last]);
    assert(first_cookie(Seq::empty(), name) is None);
}

/// A cookie is a name, an equals sign and a value. White space around it does not
/// count, and it is no cookie of any other name.
pub proof fn law_cookie_is_name_and_value(
    cookie: Seq<char>,
    name: Seq<char>,
    value: Seq<char>,
    other: Seq<char>,
)
    requires
        !cookie.contains(';'),
        text::trimmed(cookie) == name.push('=') + value,
        !name.contains('='),
        other != name,
    ensures
        cookie_in(Some(cookie), name) == Some(value),
        cookie_in(Some(cookie), other) is None,
{
    text::lemma_split_single(cookie, ';');
    lemma_first_cookie_push(Seq::empty(), cookie, name);
    lemma_first_cookie_push(Seq::empty(), cookie, other);
    assert(Seq::<Seq<char>>::empty().push(cookie) =~= seq![cookie]);
    assert(first_cookie(Seq::empty(), name) is None);
    assert(first_cookie(Seq::empty(), other) is None);
    let p = name.push('=') + value;
    assert(p[name.len() as int] == '=');
    assert forall|i: int| 0 <= i < name.len() implies p[i] != '=' by {
        assert(p[i] == name[i]);
        assert(name.contains(name[i]));
    }
    p.index_of_first_ensures('=');
    assert(p.contains('='));
    let at = p.index_of_first('=')->Some_0;
    assert(at == name.len());
    assert(p.take(at) =~= name);
    assert(p.skip(at + 1) =~= value);
}

} // verus!
