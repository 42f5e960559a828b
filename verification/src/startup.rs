//! What happens to the accounts when the service starts: the first account, and
//! a forgotten password.

use vstd::prelude::*;

use crate::accounts;
use crate::accounts::UserAccount;
use crate::ids;
use crate::passwords;
use crate::rejection;
use crate::text;

verus! {

/// The file that holds a secret in development, for the secrets that have one.
pub open spec fn secret_file(name: Seq<char>) -> Option<Seq<char>> {
    if name == "LICENSE_SIGNING_PRIVATE_KEY_PEM"@ {
        Some("../secrets/private.pem"@)
    } else if name == "LICENSE_SIGNING_PUBLIC_KEY_PEM"@ {
        Some("../secrets/public.pem"@)
    } else {
        None
    }
}

/// The file that holds a secret in development, for the secrets that have one.
pub fn local_secret_file(name: &str) -> (r: Option<&'static str>)
    ensures
        (match r {
            Some(path) => Some(path@),
            None => None,
        }) == secret_file(name@),
{
    if text::same(name, "LICENSE_SIGNING_PRIVATE_KEY_PEM") {
        Some("../secrets/private.pem")
    } else if text::same(name, "LICENSE_SIGNING_PUBLIC_KEY_PEM") {
        Some("../secrets/public.pem")
    } else {
        None
    }
}

/// The accounts after the password of `admin` was set anew.
pub open spec fn with_admin_password(
    list: Seq<accounts::UserAccountView>,
    hash: Seq<char>,
) -> Seq<accounts::UserAccountView> {
    list.map_values(
        |a: accounts::UserAccountView|
            if a.username == "admin"@ {
                accounts::UserAccountView { password_hash: hash, status: "active"@, ..a }
            } else {
                a
            },
    )
}

/// What setting the password of `admin` anew comes to. `hash` is what hashing
/// the password came to.
pub open spec fn reset_outcome(
    list: Seq<accounts::UserAccountView>,
    password: Seq<char>,
    hash: Result<Seq<char>, Seq<char>>,
) -> Result<Seq<accounts::UserAccountView>, Seq<char>> {
    if password.len() == 0 {
        Err("管理员重置密码不能为空"@)
    } else {
        match hash {
            Err(e) => Err(e),
            Ok(h) => if accounts::username_taken(list, "admin"@) {
                Ok(with_admin_password(list, h))
            } else {
                Err("未找到 admin 账号，无法重置管理员密码"@)
            },
        }
    }
}

/// The view of some accounts, or of what is wrong.
pub open spec fn accounts_view(r: Result<Vec<UserAccount>, String>) -> Result<
    Seq<accounts::UserAccountView>,
    Seq<char>,
> {
    match r {
        Ok(list) => Ok(text::views(list@)),
        Err(e) => Err(e@),
    }
}

/// Sets the password of `admin` anew, given what hashing it came to.
pub fn reset_admin(list: Vec<UserAccount>, password: &str, hash: Result<String, String>) -> (r:
    Result<Vec<UserAccount>, String>)
    ensures
        accounts_view(r) == reset_outcome(
            text::views(list@),
            password@,
            passwords::result_view(hash),
        ),
{
    if password.is_empty() {
        return Err("管理员重置密码不能为空".to_string());
    }
    match hash {
        Ok(hash) => set_admin_password(list, hash.as_str()),
        Err(e) => Err(e),
    }
}

/// Gives `admin` a password hash.
fn set_admin_password(list: Vec<UserAccount>, hash: &str) -> (r: Result<Vec<UserAccount>, String>)
    ensures
        accounts_view(r) == (if accounts::username_taken(text::views(list@), "admin"@) {
            Ok(with_admin_password(text::views(list@), hash@))
        } else {
            Err("未找到 admin 账号，无法重置管理员密码"@)
        }),
{
    let ghost items = list@;
    let ghost all = text::views(items);
    let mut out: Vec<UserAccount> = Vec::new();
    let mut updated = false;
    for item in it: list
        invariant
            it.seq() == items,
            all == text::views(items),
            out@.len() == it.index(),
            updated <==> accounts::username_taken(all.take(it.index() as int), "admin"@),
            forall|k: int|
                0 <= k < it.index() ==> (#[trigger] out@[k])@ == with_admin_password(
                    all,
                    hash@,
                )[k],
    {
        let mut account = item;
        let ghost i = it.index() as int;
        assert(all[i] == account@);
        proof {
            lemma_taken_more(all, "admin"@, i);
        }
        if text::same(account.username.as_str(), "admin") {
            account.password_hash = hash.to_string();
            account.status = "active".to_string();
            updated = true;
        }
        out.push(account);
    }
    assert(all.take(all.len() as int) =~= all);
    if updated {
        assert(text::views(out@) =~= with_admin_password(all, hash@));
        Ok(out)
    } else {
        Err("未找到 admin 账号，无法重置管理员密码".to_string())
    }
}

proof fn lemma_taken_more(list: Seq<accounts::UserAccountView>, username: Seq<char>, i: int)
    requires
        0 <= i < list.len(),
    ensures
        accounts::username_taken(list.take(i + 1), username) <==> accounts::username_taken(
            list.take(i),
            username,
        ) || list[i].username == username,
{
    let seen = list.take(i);
    let more = list.take(i + 1);
    if accounts::username_taken(seen, username) {
        let k = choose|k: int| 0 <= k < seen.len() && (#[trigger] seen[k]).username == username;
        assert(more[k].username == username);
    }
    if list[i].username == username {
        assert(more[i].username == username);
    }
    if accounts::username_taken(more, username) {
        let k = choose|k: int| 0 <= k < more.len() && (#[trigger] more[k]).username == username;
        if k < i {
            assert(seen[k].username == username);
        }
    }
}

/// What making the first account comes to.
pub open spec fn first_admin_outcome(
    username: Seq<char>,
    password: Option<Seq<char>>,
    user_id: Seq<char>,
    hash: Result<Seq<char>, Seq<char>>,
) -> Result<accounts::UserAccountView, Seq<char>> {
    match password {
        None => Err("首次启动需要设置 YAYA_OPERATION_CENTER_INITIAL_ADMIN_PASSWORD"@),
        Some(p) => if p.len() == 0 {
            Err("初始管理员密码不能为空"@)
        } else {
            match hash {
                Err(e) => Err(e),
                Ok(h) => Ok(
                    accounts::UserAccountView {
                        user_id,
                        username,
                        password_hash: h,
                        display_name: "平台超级管理员"@,
                        role: "platform_admin"@,
                        organization_id: "platform"@,
                        status: "active"@,
                    },
                ),
            }
        },
    }
}

/// The hash of a password where there is one.
pub open spec fn hash_of(password: Option<Seq<char>>, salt: Seq<u8>) -> Result<
    Seq<char>,
    Seq<char>,
> {
    match password {
        Some(p) => passwords::password_hash_of(p, salt),
        None => Err(Seq::empty()),
    }
}

/// The hash of a password where there is one.
fn hash_optional(password: &Option<String>, salt: &Vec<u8>) -> (r: Result<String, String>)
    requires
        salt@.len() == 16,
    ensures
        passwords::result_view(r) == hash_of(text::opt_view(*password), salt@),
        r matches Ok(hash) ==> (text::opt_view(*password) matches Some(p)
            && passwords::password_accepted(p, hash@)),
{
    match password {
        Some(password) => passwords::hash_with_salt(password.as_str(), salt),
        None => {
            let none = String::new();
            assert(none@ =~= Seq::<char>::empty());
            Err(none)
        },
    }
}

/// The first account, given its identifier and what hashing its password came
/// to.
pub fn first_admin(
    username: &str,
    password: &Option<String>,
    user_id: String,
    hash: Result<String, String>,
) -> (r: Result<UserAccount, String>)
    ensures
        (match r {
            Ok(account) => Ok(account@),
            Err(e) => Err(e@),
        }) == first_admin_outcome(
            username@,
            text::opt_view(*password),
            user_id@,
            passwords::result_view(hash),
        ),
{
    let password = match password {
        Some(password) => password,
        None => {
            return Err(
                "首次启动需要设置 YAYA_OPERATION_CENTER_INITIAL_ADMIN_PASSWORD".to_string(),
            );
        },
    };
    if password.as_str().is_empty() {
        return Err("初始管理员密码不能为空".to_string());
    }
    match hash {
        Ok(hash) => Ok(
            UserAccount {
                user_id,
                username: username.to_string(),
                password_hash: hash,
                display_name: "平台超级管理员".to_string(),
                role: "platform_admin".to_string(),
                organization_id: "platform".to_string(),
                status: "active".to_string(),
            },
        ),
        Err(e) => Err(e),
    }
}

/// What the accounts are when the service has started: the password of `admin`
/// is set anew where that is asked for, and the first account is made where
/// there is none.
pub open spec fn started_accounts(
    list: Seq<accounts::UserAccountView>,
    username: Seq<char>,
    password: Option<Seq<char>>,
    reset: Option<Seq<char>>,
    user_id: Seq<char>,
    salt: Seq<u8>,
    reset_salt: Seq<u8>,
) -> Result<Seq<accounts::UserAccountView>, Seq<char>> {
    let kept = match reset {
        Some(p) => reset_outcome(list, p, passwords::password_hash_of(p, reset_salt)),
        None => Ok(list),
    };
    match kept {
        Err(e) => Err(e),
        Ok(known) => if known.len() > 0 {
            Ok(known)
        } else {
            match first_admin_outcome(username, password, user_id, hash_of(password, salt)) {
                Ok(account) => Ok(known.push(account)),
                Err(e) => Err(e),
            }
        },
    }
}

/// Prepares the accounts when the service starts. The password that the first
/// account is made with, and the one that `admin` gets anew, are accepted for
/// the hashes that are stored.
pub fn start_accounts(
    list: Vec<UserAccount>,
    username: &str,
    password: &Option<String>,
    reset: &Option<String>,
) -> (r: Result<Vec<UserAccount>, String>)
    ensures
        exists|user_id: Seq<char>, salt: Seq<u8>, reset_salt: Seq<u8>|
            ids::is_resource_id(user_id, "usr"@) && ids::is_random_uuid(salt)
                && ids::is_random_uuid(reset_salt) && accounts_view(r)
                == #[trigger] started_accounts(
                text::views(list@),
                username@,
                text::opt_view(*password),
                text::opt_view(*reset),
                user_id,
                salt,
                reset_salt,
            ),
        list@.len() == 0 ==> (r matches Ok(users) ==> (text::opt_view(*password) matches Some(p)
            && users@.len() == 1 && passwords::password_accepted(p, users@[0]@.password_hash))),
        text::opt_view(*reset) matches Some(p) ==> (r matches Ok(users) ==> forall|i: int|
            0 <= i < users@.len() && (#[trigger] users@[i])@.username == "admin"@
                ==> passwords::password_accepted(p, users@[i]@.password_hash)),
{
    let user_id = ids::generated_resource_id("usr");
    let salt = ids::random_uuid();
    let reset_salt = ids::random_uuid();
    let ghost expected = started_accounts(
        text::views(list@),
        username@,
        text::opt_view(*password),
        text::opt_view(*reset),
        user_id@,
        salt@,
        reset_salt@,
    );
    let ghost before = text::views(list@);
    assert(before.len() == list@.len());
    let kept = match reset {
        Some(p) => {
            let hash = passwords::hash_with_salt(p.as_str(), &reset_salt);
            let ghost hashed = passwords::result_view(hash);
            match reset_admin(list, p.as_str(), hash) {
                Ok(kept) => {
                    proof {
                        let after = with_admin_password(before, hashed->Ok_0);
                        assert(text::views(kept@) == after);
                        assert forall|i: int|
                            0 <= i < kept@.len() && (#[trigger] kept@[i])@.username
                                == "admin"@ implies passwords::password_accepted(
                            p@,
                            kept@[i]@.password_hash,
                        ) by {
                            assert(text::views(kept@)[i] == kept@[i]@);
                        }
                        assert(after.len() == before.len());
                    }
                    kept
                },
                Err(e) => {
                    return Err(e);
                },
            }
        },
        None => list,
    };
    let mut known = kept;
    assert(text::views(known@).len() == known@.len());
    if known.len() == 0 {
        let hash = hash_optional(password, &salt);
        match first_admin(username, password, user_id, hash) {
            Ok(account) => {
                proof {
                    text::lemma_views_push(known@, account);
                }
                known.push(account);
            },
            Err(e) => {
                return Err(e);
            },
        }
    }
    Ok(known)
}

/// The account that the first start makes can log in with the user name and the
/// password that it was made with, as the administrator of the platform. (A user
/// name with white space around it is not found when it is given to log in.)
pub proof fn law_first_admin_can_log_in(
    username: Seq<char>,
    password: Seq<char>,
    user_id: Seq<char>,
    salt: Seq<u8>,
    reset_salt: Seq<u8>,
    users: Seq<accounts::UserAccountView>,
)
    requires
        text::trimmed(username) == username,
        started_accounts(
            Seq::empty(),
            username,
            Some(password),
            None,
            user_id,
            salt,
            reset_salt,
        ) == Ok::<Seq<accounts::UserAccountView>, Seq<char>>(users),
        passwords::password_accepted(password, users[0].password_hash),
    ensures
        users.len() == 1,
        accounts::login_outcome(
            accounts::LoginRequestView { username, password },
            users,
        ) == Ok::<accounts::AuthenticatedUserView, rejection::RejectionView>(
            accounts::AuthenticatedUserView {
                user_id,
                role: "platform_admin"@,
                organization_id: "platform"@,
            },
        ),
{
}

/// Once the password of `admin` was set anew, `admin` can log in with it, even
/// if the account was inactive.
pub proof fn law_reset_admin_can_log_in(
    list: Seq<accounts::UserAccountView>,
    username: Seq<char>,
    password: Option<Seq<char>>,
    reset: Seq<char>,
    user_id: Seq<char>,
    salt: Seq<u8>,
    reset_salt: Seq<u8>,
    users: Seq<accounts::UserAccountView>,
)
    requires
        started_accounts(list, username, password, Some(reset), user_id, salt, reset_salt) == Ok::<
            Seq<accounts::UserAccountView>,
            Seq<char>,
        >(users),
        forall|i: int|
            0 <= i < users.len() && (#[trigger] users[i]).username == "admin"@
                ==> passwords::password_accepted(reset, users[i].password_hash),
    ensures
        accounts::login_outcome(
            accounts::LoginRequestView { username: "admin"@, password: reset },
            users,
        ) is Ok,
{
    lemma_admin_is_trimmed();
    let hash = passwords::password_hash_of(reset, reset_salt)->Ok_0;
    lemma_reset_is_active(list, hash);
    let k = choose|k: int| 0 <= k < list.len() && (#[trigger] list[k]).username == "admin"@;
    assert(users[k].username == "admin"@);
}

proof fn lemma_admin_is_trimmed()
    ensures
        text::trimmed("admin"@) == "admin"@,
{
    reveal_strlit("admin");
    let s = "admin"@;
    text::lemma_trimmed_keeps(s);
}

proof fn lemma_reset_is_active(list: Seq<accounts::UserAccountView>, hash: Seq<char>)
    requires
        accounts::username_taken(list, "admin"@),
    ensures
        accounts::active_account(with_admin_password(list, hash), "admin"@) matches Some(a)
            && a.password_hash == hash,
    decreases list.len(),
{
    let after = with_admin_password(list, hash);
    let k = choose|k: int| 0 <= k < list.len() && (#[trigger] list[k]).username == "admin"@;
    if list[0].username != "admin"@ {
        assert(after.skip(1) =~= with_admin_password(list.skip(1), hash));
        assert(list.skip(1)[k - 1].username == "admin"@);
        lemma_reset_is_active(list.skip(1), hash);
    }
}

/// The first account is made exactly where a password is configured that is not
/// empty and could be hashed. It is the administrator of the platform.
pub proof fn law_first_account_is_the_administrator(
    username: Seq<char>,
    password: Option<Seq<char>>,
    user_id: Seq<char>,
    hash: Result<Seq<char>, Seq<char>>,
)
    ensures
        first_admin_outcome(username, password, user_id, hash) matches Ok(account) ==> {
            &&& account.user_id == user_id
            &&& account.username == username
            &&& hash == Ok::<Seq<char>, Seq<char>>(account.password_hash)
            &&& account.display_name == "平台超级管理员"@
            &&& account.role == "platform_admin"@
            &&& account.organization_id == "platform"@
            &&& account.status == "active"@
        },
        first_admin_outcome(username, password, user_id, hash) is Ok <==> {
            &&& password matches Some(p) && p.len() > 0
            &&& hash is Ok
        },
{
}

/// Setting the password of `admin` anew changes the password of the accounts with
/// that user name and makes them active. It changes nothing else of them and no
/// other account, and is refused exactly where the password is empty, could not be
/// hashed, or no account has that user name.
pub proof fn law_reset_changes_admin_only(
    list: Seq<accounts::UserAccountView>,
    password: Seq<char>,
    hash: Result<Seq<char>, Seq<char>>,
)
    ensures
        reset_outcome(list, password, hash) matches Ok(users) ==> {
            &&& users.len() == list.len()
            &&& forall|i: int|
                0 <= i < list.len() ==> #[trigger] users[i] == (if list[i].username == "admin"@ {
                    accounts::UserAccountView {
                        password_hash: hash->Ok_0,
                        status: "active"@,
                        ..list[i]
                    }
                } else {
                    list[i]
                })
        },
        reset_outcome(list, password, hash) is Ok <==> {
            &&& password.len() > 0
            &&& hash is Ok
            &&& exists|i: int| 0 <= i < list.len() && (#[trigger] list[i]).username == "admin"@
        },
{
}

/// Where there are accounts and no password is set anew, a start changes none of
/// them. Where there is none it makes one.
pub proof fn law_start_keeps_the_accounts(
    list: Seq<accounts::UserAccountView>,
    username: Seq<char>,
    password: Option<Seq<char>>,
    user_id: Seq<char>,
    salt: Seq<u8>,
    reset_salt: Seq<u8>,
)
    ensures
        list.len() > 0 ==> started_accounts(
            list,
            username,
            password,
            None,
            user_id,
            salt,
            reset_salt,
        ) == Ok::<Seq<accounts::UserAccountView>, Seq<char>>(list),
        list.len() == 0 ==> (started_accounts(
            list,
            username,
            password,
            None,
            user_id,
            salt,
            reset_salt,
        ) matches Ok(users) ==> users.len() == 1 && users[0].username == username
            && users[0].user_id == user_id && users[0].role == "platform_admin"@
            && passwords::password_hash_of(password->Some_0, salt) == Ok::<Seq<char>, Seq<char>>(
            users[0].password_hash,
        )),
{
}

/// In development the two keys of the licenses are in files, and no other secret is.
pub proof fn law_keys_are_in_files(name: Seq<char>)
    ensures
        secret_file(name) is Some <==> name == "LICENSE_SIGNING_PRIVATE_KEY_PEM"@ || name
            == "LICENSE_SIGNING_PUBLIC_KEY_PEM"@,
        name == "LICENSE_SIGNING_PRIVATE_KEY_PEM"@ ==> secret_file(name) == Some(
            "../secrets/private.pem"@,
        ),
        name == "LICENSE_SIGNING_PUBLIC_KEY_PEM"@ ==> secret_file(name) == Some(
            "../secrets/public.pem"@,
        ),
{
    reveal_strlit("LICENSE_SIGNING_PRIVATE_KEY_PEM");
    reveal_strlit("LICENSE_SIGNING_PUBLIC_KEY_PEM");
    assert("LICENSE_SIGNING_PRIVATE_KEY_PEM"@.len() != "LICENSE_SIGNING_PUBLIC_KEY_PEM"@.len());
}

} // verus!
