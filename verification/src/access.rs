//! Which accounts may carry out which operation.

use vstd::prelude::*;

use crate::accounts;
use crate::accounts::{AuthenticatedUser, Sessions};
use crate::rejection;
use crate::rejection::Rejection;
use crate::text;

verus! {

/// The operations that can be asked for.
pub enum Operation {
    CheckHealth,
    LogIn,
    ShowSession,
    ListUsers,
    CreateUser,
    ListLogs,
    IssueLicense,
    ListLicenses,
    RevokeLicense,
    DestroyLicense,
    ActivateLicense,
    CheckLicense,
    ListCustomers,
    SaveCustomer,
    SwitchCustomer,
    ListOrders,
    CreateOrder,
    UpdateOrder,
    RecordPayment,
    CancelOrder,
    SummarizeFinance,
    ListTransactions,
    ListProviders,
    CreateProvider,
    ListCommissionRules,
    SaveCommissionRule,
    ListCommissions,
    ReverseCommission,
    ListSettlements,
    Settle,
    ListEmployees,
    SaveEmployee,
    SwitchEmployee,
    CheckEmployeeDeletion,
    DeleteEmployee,
    ShowAvatar,
    SaveAvatar,
    ListMarket,
    TakePackage,
    TakeSkillArchive,
    BuyEmployee,
    ListSkills,
    SaveSkill,
    ImportSkill,
    ReplaceSkill,
    SwitchSkill,
    CheckSkillDeletion,
    DeleteSkill,
    ListTools,
    SubmitApplication,
    ListSubmissions,
    ReviewSubmission,
    ListApplications,
}

/// Who an operation is open to.
#[derive(PartialEq, Eq, Structural)]
pub enum Access {
    /// Everybody.
    Anyone,
    /// Whoever presents a valid license.
    License,
    /// Every account.
    LoggedIn,
    /// The accounts with a platform role.
    Platform,
    /// The platform administrators.
    PlatformAdmin,
}

/// Who an operation is open to.
pub open spec fn access_of(operation: Operation) -> Access {
    match operation {
        Operation::CheckHealth => Access::Anyone,
        Operation::LogIn => Access::Anyone,
        Operation::CheckLicense => Access::Anyone,
        Operation::ActivateLicense => Access::Anyone,
        Operation::ShowAvatar => Access::Anyone,
        Operation::ListMarket => Access::Anyone,
        Operation::TakePackage => Access::License,
        Operation::TakeSkillArchive => Access::License,
        Operation::BuyEmployee => Access::License,
        Operation::SubmitApplication => Access::License,
        Operation::ListApplications => Access::License,
        Operation::ShowSession => Access::LoggedIn,
        Operation::ListOrders => Access::LoggedIn,
        Operation::ListCommissions => Access::LoggedIn,
        Operation::ListSettlements => Access::LoggedIn,
        Operation::ListUsers => Access::PlatformAdmin,
        Operation::CreateUser => Access::PlatformAdmin,
        Operation::CreateProvider => Access::PlatformAdmin,
        Operation::SaveCommissionRule => Access::PlatformAdmin,
        Operation::ReverseCommission => Access::PlatformAdmin,
        Operation::Settle => Access::PlatformAdmin,
        _ => Access::Platform,
    }
}

/// Who an operation is open to.
pub fn access(operation: &Operation) -> (r: Access)
    ensures
        r == access_of(*operation),
{
    match operation {
        Operation::CheckHealth => Access::Anyone,
        Operation::LogIn => Access::Anyone,
        Operation::CheckLicense => Access::Anyone,
        Operation::ActivateLicense => Access::Anyone,
        Operation::ShowAvatar => Access::Anyone,
        Operation::ListMarket => Access::Anyone,
        Operation::TakePackage => Access::License,
        Operation::TakeSkillArchive => Access::License,
        Operation::BuyEmployee => Access::License,
        Operation::SubmitApplication => Access::License,
        Operation::ListApplications => Access::License,
        Operation::ShowSession => Access::LoggedIn,
        Operation::ListOrders => Access::LoggedIn,
        Operation::ListCommissions => Access::LoggedIn,
        Operation::ListSettlements => Access::LoggedIn,
        Operation::ListUsers => Access::PlatformAdmin,
        Operation::CreateUser => Access::PlatformAdmin,
        Operation::CreateProvider => Access::PlatformAdmin,
        Operation::SaveCommissionRule => Access::PlatformAdmin,
        Operation::ReverseCommission => Access::PlatformAdmin,
        Operation::Settle => Access::PlatformAdmin,
        _ => Access::Platform,
    }
}

/// Who carries an operation out, as far as a session says: nobody needs one
/// for what is open to everybody or to holders of a license.
pub open spec fn authorized(
    operation: Operation,
    cookie: Option<Seq<char>>,
    sessions: Map<Seq<char>, accounts::AuthenticatedUserView>,
) -> Result<Option<accounts::AuthenticatedUserView>, rejection::RejectionView> {
    let user = match access_of(operation) {
        Access::Anyone => None,
        Access::License => None,
        Access::LoggedIn => Some(accounts::authenticated(cookie, sessions)),
        Access::Platform => Some(accounts::admitted(cookie, sessions)),
        Access::PlatformAdmin => Some(accounts::admitted_as_admin(cookie, sessions)),
    };
    match user {
        None => Ok(None),
        Some(Ok(u)) => Ok(Some(u)),
        Some(Err(e)) => Err(e),
    }
}

/// Finds out who carries an operation out, and whether they may.
pub fn authorize(operation: &Operation, cookie: &Option<String>, sessions: &Sessions) -> (r: Result<
    Option<AuthenticatedUser>,
    Rejection,
>)
    ensures
        match r {
            Ok(user) => authorized(*operation, text::opt_view(*cookie), sessions@) == Ok::<
                Option<accounts::AuthenticatedUserView>,
                rejection::RejectionView,
            >(text::opt_view(user)),
            Err(e) => authorized(*operation, text::opt_view(*cookie), sessions@) == Err::<
                Option<accounts::AuthenticatedUserView>,
                rejection::RejectionView,
            >(e@),
        },
{
    let user = match access(operation) {
        Access::Anyone => {
            return Ok(None);
        },
        Access::License => {
            return Ok(None);
        },
        Access::LoggedIn => accounts::require_authenticated(cookie, sessions),
        Access::Platform => accounts::require_admin(cookie, sessions),
        Access::PlatformAdmin => accounts::require_platform_admin(cookie, sessions),
    };
    match user {
        Ok(u) => Ok(Some(u)),
        Err(e) => Err(e),
    }
}

/// Whoever is not logged in is refused every operation that is open neither to
/// everybody nor to holders of a license.
pub proof fn law_management_needs_a_session(
    operation: Operation,
    cookie: Option<Seq<char>>,
    sessions: Map<Seq<char>, accounts::AuthenticatedUserView>,
)
    requires
        accounts::authenticated(cookie, sessions) is Err,
        access_of(operation) != Access::Anyone,
        access_of(operation) != Access::License,
    ensures
        authorized(operation, cookie, sessions) == Err::<
            Option<accounts::AuthenticatedUserView>,
            rejection::RejectionView,
        >(rejection::refusal(rejection::UNAUTHORIZED, "请先登录"@)),
{
}

/// Accounts of a service provider may carry out nothing of what needs a
/// platform role.
pub proof fn law_provider_manages_nothing(
    operation: Operation,
    cookie: Option<Seq<char>>,
    sessions: Map<Seq<char>, accounts::AuthenticatedUserView>,
)
    requires
        accounts::authenticated(cookie, sessions) matches Ok(user) && accounts::is_provider_role(
            user.role,
        ),
    ensures
        authorized(operation, cookie, sessions) is Err <==> access_of(operation)
            == Access::Platform || access_of(operation) == Access::PlatformAdmin,
{
    accounts::law_provider_is_not_admitted(cookie, sessions);
}

/// A platform administrator may carry out every operation.
pub proof fn law_platform_admin_may_do_everything(
    operation: Operation,
    cookie: Option<Seq<char>>,
    sessions: Map<Seq<char>, accounts::AuthenticatedUserView>,
)
    requires
        accounts::authenticated(cookie, sessions) matches Ok(user) && user.role
            == "platform_admin"@,
    ensures
        authorized(operation, cookie, sessions) is Ok,
{
}

/// Nobody needs an account to see whether the service runs, to log in, to check or
/// activate a license, to see a picture or to look at the market; whoever takes a
/// package, buys an AI employee or deals with applications needs a license and no
/// account.
pub proof fn law_public_operations_need_no_session(
    operation: Operation,
    cookie: Option<Seq<char>>,
    sessions: Map<Seq<char>, accounts::AuthenticatedUserView>,
)
    ensures
        access_of(operation) == Access::Anyone <==> (operation is CheckHealth || operation is LogIn
            || operation is CheckLicense || operation is ActivateLicense
            || operation is ShowAvatar || operation is ListMarket),
        access_of(operation) == Access::License <==> (operation is TakePackage
            || operation is TakeSkillArchive || operation is BuyEmployee
            || operation is SubmitApplication || operation is ListApplications),
        access_of(operation) == Access::Anyone || access_of(operation) == Access::License
            ==> authorized(operation, cookie, sessions) == Ok::<
            Option<accounts::AuthenticatedUserView>,
            rejection::RejectionView,
        >(None),
{
}

/// Every account sees its session, and the orders, the commissions and the
/// settlements that it may see. Only a platform administrator manages accounts,
/// providers and commission rules, takes commissions back and settles them. All
/// other management is for the roles of the platform.
pub proof fn law_management_goes_by_the_role(
    operation: Operation,
    cookie: Option<Seq<char>>,
    sessions: Map<Seq<char>, accounts::AuthenticatedUserView>,
    user: accounts::AuthenticatedUserView,
)
    requires
        accounts::authenticated(cookie, sessions) == Ok::<
            accounts::AuthenticatedUserView,
            rejection::RejectionView,
        >(user),
        access_of(operation) != Access::Anyone,
        access_of(operation) != Access::License,
    ensures
        authorized(operation, cookie, sessions) is Ok <==> {
            ||| operation is ShowSession || operation is ListOrders || operation is ListCommissions
                || operation is ListSettlements
            ||| user.role == "platform_admin"@
            ||| (user.role == "platform_operator"@ || user.role == "platform_finance"@) && !(
            operation is ListUsers || operation is CreateUser || operation is CreateProvider
                || operation is SaveCommissionRule || operation is ReverseCommission
                || operation is Settle)
        },
        authorized(operation, cookie, sessions) matches Ok(who) ==> who == Some(user),
{
    reveal_strlit("platform_admin");
    reveal_strlit("platform_operator");
    reveal_strlit("platform_finance");
    assert("platform_admin"@.len() == 14);
    assert("platform_operator"@.len() == 17);
    assert("platform_finance"@.len() == 16);
}

} // verus!
