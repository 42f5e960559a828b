//! What a license lets a customer take from the market.

use vstd::prelude::*;

use crate::accounts;
use crate::catalog;
use crate::catalog::{AiEmployeeProduct, OperationSkill};
use crate::clock;
use crate::copying::{duplicate_all, Duplicate};
use crate::licenses;
use crate::licenses::{AiEmployeeEntitlement, LicenseClaims};
use crate::lookup;
use crate::rejection;
use crate::rejection::{refuse, Rejection};
use crate::text;

verus! {

/// What the license in an `Authorization` header states. `verified` is what
/// it was found to state, where its signature holds.
pub open spec fn licensed(
    header: Option<Seq<char>>,
    verified: Option<licenses::LicenseClaimsView>,
) -> Result<licenses::LicenseClaimsView, rejection::RejectionView> {
    match accounts::token_in(header) {
        None => Err(rejection::refusal(rejection::UNAUTHORIZED, "缺少平台许可证"@)),
        Some(_) => match verified {
            None => Err(rejection::refusal(rejection::UNAUTHORIZED, "平台许可证无效或已过期"@)),
            Some(claims) => Ok(claims),
        },
    }
}

/// What the license in an `Authorization` header states.
pub fn require_license(header: &Option<String>, verified: Option<LicenseClaims>) -> (r: Result<
    LicenseClaims,
    Rejection,
>)
    ensures
        rejection::outcome(r) == licensed(text::opt_view(*header), text::opt_view(verified)),
{
    if accounts::bearer_token(header).is_none() {
        return Err(refuse(rejection::UNAUTHORIZED, "缺少平台许可证"));
    }
    match verified {
        None => Err(refuse(rejection::UNAUTHORIZED, "平台许可证无效或已过期")),
        Some(claims) => Ok(claims),
    }
}

/// The first entitlement to an AI employee that has not expired.
pub open spec fn owned(
    employees: Seq<licenses::AiEmployeeEntitlementView>,
    id: Seq<char>,
    now: int,
) -> Option<licenses::AiEmployeeEntitlementView>
    decreases employees.len(),
{
    if employees.len() == 0 {
        None
    } else if employees[0].id == id && employees[0].expires_at > now {
        Some(employees[0])
    } else {
        owned(employees.skip(1), id, now)
    }
}

/// The first entitlement to an AI employee that has not expired.
pub fn find_owned<'a>(employees: &'a Vec<AiEmployeeEntitlement>, id: &str, now: i64) -> (r: Option<
    &'a AiEmployeeEntitlement,
>)
    ensures
        match r {
            Some(e) => owned(text::views(employees@), id@, now as int) == Some(e@),
            None => owned(text::views(employees@), id@, now as int) is None,
        },
{
    let ghost all = text::views(employees@);
    let mut i: usize = 0;
    assert(all.skip(0) =~= all);
    while i < employees.len()
        invariant
            i <= employees@.len(),
            all == text::views(employees@),
            owned(all, id@, now as int) == owned(all.skip(i as int), id@, now as int),
        decreases employees@.len() - i,
    {
        assert(all.skip(i as int)[0] == employees@[i as int]@);
        if text::same(employees[i].id.as_str(), id) && employees[i].expires_at > now {
            return Some(&employees[i]);
        }
        assert(all.skip(i as int).skip(1) =~= all.skip(i + 1));
        i = i + 1;
    }
    None
}

/// An entitlement is owned until it expires, and no longer.
pub proof fn law_owned_until_it_expires(
    employees: Seq<licenses::AiEmployeeEntitlementView>,
    id: Seq<char>,
    now: int,
)
    ensures
        owned(employees, id, now) is Some <==> exists|i: int|
            0 <= i < employees.len() && (#[trigger] employees[i]).id == id
                && employees[i].expires_at > now,
    decreases employees.len(),
{
    if employees.len() > 0 {
        let rest = employees.skip(1);
        law_owned_until_it_expires(rest, id, now);
        if exists|i: int|
            0 <= i < rest.len() && (#[trigger] rest[i]).id == id && rest[i].expires_at > now {
            let i = choose|i: int|
                0 <= i < rest.len() && (#[trigger] rest[i]).id == id && rest[i].expires_at > now;
            assert(employees[i + 1].id == id);
        }
        if exists|i: int|
            0 <= i < employees.len() && (#[trigger] employees[i]).id == id
                && employees[i].expires_at > now {
            let i = choose|i: int|
                0 <= i < employees.len() && (#[trigger] employees[i]).id == id
                    && employees[i].expires_at > now;
            if i > 0 {
                assert(rest[i - 1].id == id);
            }
        }
    }
}

/// What a request for the package of an AI employee comes to: the AI employee
/// as it is now, for as long as the license entitles to it.
pub open spec fn package_outcome(
    employee_id: Seq<char>,
    claims: licenses::LicenseClaimsView,
    products: Seq<catalog::AiEmployeeProductView>,
    skills: Seq<catalog::OperationSkillView>,
    now: int,
) -> Result<licenses::AiEmployeeEntitlementView, rejection::RejectionView> {
    match owned(claims.ai_employees, employee_id, now) {
        None => Err(rejection::refusal(rejection::FORBIDDEN, "当前许可证未包含该 AI 员工"@)),
        Some(entitlement) => match catalog::product_on_sale(products, text::trimmed(employee_id)) {
            None => Err(rejection::refusal(rejection::NOT_FOUND, "AI 员工商品不存在或未上架"@)),
            Some(product) => Ok(
                licenses::AiEmployeeEntitlementView {
                    id: product.id,
                    title: product.title,
                    expires_at: entitlement.expires_at,
                    template_version: product.package_version,
                    skills: catalog::snapshots_of(product, skills),
                    system_prompt: product.system_prompt,
                    allowed_tools: product.allowed_tools,
                    application_ids: product.application_ids,
                },
            ),
        },
    }
}

/// The package of an AI employee at a second.
pub fn owned_package(
    employee_id: &str,
    claims: &LicenseClaims,
    products: &Vec<AiEmployeeProduct>,
    skills: &Vec<OperationSkill>,
    now: i64,
) -> (r: Result<AiEmployeeEntitlement, Rejection>)
    ensures
        rejection::outcome(r) == package_outcome(
            employee_id@,
            claims@,
            text::views(products@),
            text::views(skills@),
            now as int,
        ),
{
    let expires_at: i64 = match find_owned(&claims.ai_employees, employee_id, now) {
        Some(entitlement) => entitlement.expires_at,
        None => {
            return Err(refuse(rejection::FORBIDDEN, "当前许可证未包含该 AI 员工"));
        },
    };
    let id = text::trim_owned(employee_id);
    match catalog::find_on_sale(products, id.as_str()) {
        None => Err(refuse(rejection::NOT_FOUND, "AI 员工商品不存在或未上架")),
        Some(product) => Ok(
            AiEmployeeEntitlement {
                id: product.id.clone(),
                title: product.title.clone(),
                expires_at,
                template_version: product.package_version.clone(),
                skills: catalog::skill_snapshots(product, skills),
                system_prompt: product.system_prompt.clone(),
                allowed_tools: duplicate_all(&product.allowed_tools),
                application_ids: duplicate_all(&product.application_ids),
            },
        ),
    }
}

/// The package of an AI employee now.
pub fn get_owned_ai_employee_package(
    employee_id: &str,
    claims: &LicenseClaims,
    products: &Vec<AiEmployeeProduct>,
    skills: &Vec<OperationSkill>,
) -> (r: Result<AiEmployeeEntitlement, Rejection>)
    ensures
        exists|now: int|
            0 <= now <= clock::LAST_SECOND && rejection::outcome(r) == #[trigger] package_outcome(
                employee_id@,
                claims@,
                text::views(products@),
                text::views(skills@),
                now,
            ),
{
    let now = clock::now();
    let ghost outcome = package_outcome(
        employee_id@,
        claims@,
        text::views(products@),
        text::views(skills@),
        now as int,
    );
    owned_package(employee_id, claims, products, skills, now)
}

/// What a request for the archive of a skill comes to: the skill. It must be
/// one of an AI employee that the license entitles to.
pub open spec fn archive_outcome(
    employee_id: Seq<char>,
    skill_id: Seq<char>,
    claims: licenses::LicenseClaimsView,
    products: Seq<catalog::AiEmployeeProductView>,
    skills: Seq<catalog::OperationSkillView>,
    now: int,
) -> Result<catalog::OperationSkillView, rejection::RejectionView> {
    match owned(claims.ai_employees, employee_id, now) {
        None => Err(rejection::refusal(rejection::FORBIDDEN, "当前许可证未包含该 AI 员工"@)),
        Some(_) => match catalog::product_on_sale(products, text::trimmed(employee_id)) {
            None => Err(rejection::refusal(rejection::NOT_FOUND, "AI 员工商品不存在或未上架"@)),
            Some(product) => if !catalog::has_skill(product, skill_id) {
                Err(rejection::refusal(rejection::FORBIDDEN, "该 Skill 不属于当前 AI 员工"@))
            } else {
                match catalog::skill_with(skills, text::trimmed(skill_id)) {
                    None => Err(rejection::refusal(rejection::NOT_FOUND, "AI 员工 Skill 不存在"@)),
                    Some(skill) => Ok(skill),
                }
            },
        },
    }
}

/// The skill whose archive is asked for, at a second.
pub fn owned_skill(
    employee_id: &str,
    skill_id: &str,
    claims: &LicenseClaims,
    products: &Vec<AiEmployeeProduct>,
    skills: &Vec<OperationSkill>,
    now: i64,
) -> (r: Result<OperationSkill, Rejection>)
    ensures
        rejection::outcome(r) == archive_outcome(
            employee_id@,
            skill_id@,
            claims@,
            text::views(products@),
            text::views(skills@),
            now as int,
        ),
{
    if find_owned(&claims.ai_employees, employee_id, now).is_none() {
        return Err(refuse(rejection::FORBIDDEN, "当前许可证未包含该 AI 员工"));
    }
    let id = text::trim_owned(employee_id);
    let product = match catalog::find_on_sale(products, id.as_str()) {
        Some(product) => product,
        None => {
            return Err(refuse(rejection::NOT_FOUND, "AI 员工商品不存在或未上架"));
        },
    };
    if !text::contains_text(&product.skill_ids, skill_id) {
        return Err(refuse(rejection::FORBIDDEN, "该 Skill 不属于当前 AI 员工"));
    }
    let wanted = text::trim_owned(skill_id);
    match lookup::find(skills, wanted.as_str()) {
        Some(skill) => Ok(skill.duplicate()),
        None => Err(refuse(rejection::NOT_FOUND, "AI 员工 Skill 不存在")),
    }
}

/// The skill whose archive is asked for now.
pub fn download_owned_ai_employee_skill_archive(
    employee_id: &str,
    skill_id: &str,
    claims: &LicenseClaims,
    products: &Vec<AiEmployeeProduct>,
    skills: &Vec<OperationSkill>,
) -> (r: Result<OperationSkill, Rejection>)
    ensures
        exists|now: int|
            0 <= now <= clock::LAST_SECOND && rejection::outcome(r) == #[trigger] archive_outcome(
                employee_id@,
                skill_id@,
                claims@,
                text::views(products@),
                text::views(skills@),
                now,
            ),
{
    let now = clock::now();
    let ghost outcome = archive_outcome(
        employee_id@,
        skill_id@,
        claims@,
        text::views(products@),
        text::views(skills@),
        now as int,
    );
    owned_skill(employee_id, skill_id, claims, products, skills, now)
}

/// Whether a character may stand in an HTTP header.
pub open spec fn is_header_char(c: char) -> bool {
    c == '\t' || (c as u32 >= 32 && c as u32 != 127)
}

/// Whether a text may stand in an HTTP header.
pub open spec fn is_header_text(s: Seq<char>) -> bool {
    forall|i: int| 0 <= i < s.len() ==> is_header_char(#[trigger] s[i])
}

/// `http::HeaderValue::from_str` takes a text unless one of its bytes is a
/// control character other than the tab.
#[verifier::external_body]
fn header_accepts(value: &str) -> (r: bool)
    ensures
        r == is_header_text(value@),
{
    axum::http::HeaderValue::from_str(value).is_ok()
}

/// The `Content-Disposition` header of the archive of a skill.
pub open spec fn disposition(employee_id: Seq<char>, package_name: Seq<char>) -> Seq<char> {
    "attachment; filename=\""@ + (employee_id + "-"@ + package_name + ".zip"@).filter(
        |c: char| c != '"',
    ) + "\""@
}

/// The `Content-Disposition` header of the archive of a skill of an AI
/// employee.
pub fn archive_disposition(employee_id: &str, package_name: &str) -> (r: Result<String, Rejection>)
    ensures
        rejection::outcome(r) == (if is_header_text(disposition(employee_id@, package_name@)) {
            Ok::<Seq<char>, rejection::RejectionView>(disposition(employee_id@, package_name@))
        } else {
            Err(rejection::refusal(rejection::INTERNAL_SERVER_ERROR, "Skill 文件名无效"@))
        }),
{
    let name = text::join2(
        text::join3(employee_id, "-", package_name).as_str(),
        ".zip",
    );
    let plain = text::without(name.as_str(), '"');
    let value = text::join3("attachment; filename=\"", plain.as_str(), "\"");
    if !header_accepts(value.as_str()) {
        return Err(refuse(rejection::INTERNAL_SERVER_ERROR, "Skill 文件名无效"));
    }
    Ok(value)
}

/// What a license states is known exactly where it was presented as a bearer token
/// and verified, and then it is what was verified.
pub proof fn law_presented_license_is_believed_when_verified(
    header: Option<Seq<char>>,
    verified: Option<licenses::LicenseClaimsView>,
)
    ensures
        licensed(header, verified) matches Ok(claims) ==> verified == Some(claims),
        licensed(header, verified) is Ok <==> verified is Some && accounts::token_in(header) is Some,
{
}

proof fn lemma_owned_is_held(
    employees: Seq<licenses::AiEmployeeEntitlementView>,
    id: Seq<char>,
    now: int,
)
    ensures
        owned(employees, id, now) matches Some(employee) ==> employees.contains(employee)
            && employee.id == id && employee.expires_at > now,
    decreases employees.len(),
{
    if employees.len() > 0 {
        if employees[0].id == id && employees[0].expires_at > now {
            assert(employees.contains(employees[0]));
        } else {
            let rest = employees.skip(1);
            lemma_owned_is_held(rest, id, now);
            match owned(rest, id, now) {
                Some(employee) => {
                    let k = rest.index_of(employee);
                    assert(employees[k + 1] == employee);
                },
                None => {},
            }
        }
    }
}

/// The package of an AI employee is the AI employee as the catalog has it now, for
/// as long as an entitlement of the license to it lasts. It is handed out exactly
/// where there is such an entitlement that has not ended and the AI employee is on
/// sale.
pub proof fn law_package_is_the_employee_of_the_catalog(
    employee_id: Seq<char>,
    claims: licenses::LicenseClaimsView,
    products: Seq<catalog::AiEmployeeProductView>,
    skills: Seq<catalog::OperationSkillView>,
    now: int,
)
    ensures
        package_outcome(employee_id, claims, products, skills, now) matches Ok(package) ==> {
            &&& package.id == text::trimmed(employee_id)
            &&& exists|i: int|
                0 <= i < claims.ai_employees.len() && (#[trigger] claims.ai_employees[i]).id
                    == employee_id && claims.ai_employees[i].expires_at > now
                    && claims.ai_employees[i].expires_at == package.expires_at
            &&& exists|p: int|
                {
                    &&& 0 <= p < products.len()
                    &&& (#[trigger] products[p]).id == package.id
                    &&& products[p].status == "active"@
                    &&& package.title == products[p].title
                    &&& package.template_version == products[p].package_version
                    &&& package.system_prompt == products[p].system_prompt
                    &&& package.allowed_tools == products[p].allowed_tools
                    &&& package.application_ids == products[p].application_ids
                    &&& package.skills == catalog::snapshots_of(products[p], skills)
                }
        },
        package_outcome(employee_id, claims, products, skills, now) is Ok <==> {
            &&& exists|i: int|
                0 <= i < claims.ai_employees.len() && (#[trigger] claims.ai_employees[i]).id
                    == employee_id && claims.ai_employees[i].expires_at > now
            &&& lookup::found::<AiEmployeeProduct>(
                products,
                text::trimmed(employee_id),
            ) matches Some(product) && product.status == "active"@
        },
{
    let id = text::trimmed(employee_id);
    law_owned_until_it_expires(claims.ai_employees, employee_id, now);
    lemma_owned_is_held(claims.ai_employees, employee_id, now);
    lookup::lemma_found::<AiEmployeeProduct>(products, id);
    match package_outcome(employee_id, claims, products, skills, now) {
        Ok(_) => {
            let held = owned(claims.ai_employees, employee_id, now)->Some_0;
            let i = claims.ai_employees.index_of(held);
            assert(claims.ai_employees[i] == held);
            let product = catalog::product_with(products, id)->Some_0;
            let p = products.index_of(product);
            assert(products[p] == product);
        },
        Err(_) => {},
    }
}

/// The archive of a skill is handed out exactly where the license has an
/// entitlement that has not ended to an AI employee on sale that has the skill, and
/// the skill is there. It is the archive of that skill.
pub proof fn law_archive_is_one_of_the_employee(
    employee_id: Seq<char>,
    skill_id: Seq<char>,
    claims: licenses::LicenseClaimsView,
    products: Seq<catalog::AiEmployeeProductView>,
    skills: Seq<catalog::OperationSkillView>,
    now: int,
)
    ensures
        archive_outcome(employee_id, skill_id, claims, products, skills, now) matches Ok(skill)
            ==> skill.id == text::trimmed(skill_id) && skills.contains(skill),
        archive_outcome(employee_id, skill_id, claims, products, skills, now) is Ok <==> {
            &&& exists|i: int|
                0 <= i < claims.ai_employees.len() && (#[trigger] claims.ai_employees[i]).id
                    == employee_id && claims.ai_employees[i].expires_at > now
            &&& lookup::found::<AiEmployeeProduct>(
                products,
                text::trimmed(employee_id),
            ) matches Some(product) && product.status == "active"@ && product.skill_ids.contains(
                skill_id,
            )
            &&& lookup::found::<catalog::OperationSkill>(skills, text::trimmed(skill_id)) is Some
        },
{
    law_owned_until_it_expires(claims.ai_employees, employee_id, now);
    lookup::lemma_found::<catalog::OperationSkill>(skills, text::trimmed(skill_id));
}

/// The file name that is proposed for an archive holds no quotation mark but the
/// two around it, and is that of the AI employee and the package where neither has
/// one.
pub proof fn law_proposed_name_is_quoted_once(employee_id: Seq<char>, package_name: Seq<char>)
    requires
        !employee_id.contains('"'),
        !package_name.contains('"'),
    ensures
        disposition(employee_id, package_name) == "attachment; filename=\""@ + (employee_id + "-"@
            + package_name + ".zip"@) + "\""@,
{
    let name = employee_id + "-"@ + package_name + ".zip"@;
    reveal_strlit("-");
    reveal_strlit(".zip");
    assert forall|i: int| 0 <= i < name.len() implies name[i] != '"' by {
        if i < employee_id.len() {
            assert(employee_id.contains(employee_id[i]));
        } else if i == employee_id.len() {
        } else if i < employee_id.len() + 1 + package_name.len() {
            let k = i - employee_id.len() - 1;
            assert(name[i] == package_name[k]);
            assert(package_name.contains(package_name[k]));
        } else {
            let k = i - employee_id.len() - 1 - package_name.len();
            assert(name[i] == ".zip"@[k]);
        }
    }
    lemma_nothing_left_out(name);
}

proof fn lemma_nothing_left_out(s: Seq<char>)
    requires
        forall|i: int| 0 <= i < s.len() ==> s[i] != '"',
    ensures
        s.filter(|c: char| c != '"') == s,
    decreases s.len(),
{
    reveal(Seq::filter);
    if s.len() > 0 {
        lemma_nothing_left_out(s.drop_last());
        assert(s.drop_last().push(s.last()) =~= s);
    }
}

/// Whatever the names hold, no quotation mark stands between the two around the
/// file name that is proposed.
pub proof fn law_proposed_name_holds_no_quote(
    employee_id: Seq<char>,
    package_name: Seq<char>,
    i: int,
)
    requires
        "attachment; filename=\""@.len() <= i < disposition(employee_id, package_name).len() - 1,
    ensures
        disposition(employee_id, package_name)[i] != '"',
{
    reveal_strlit("\"");
    let name = employee_id + "-"@ + package_name + ".zip"@;
    let keep = |c: char| c != '"';
    let at = i - "attachment; filename=\""@.len();
    name.lemma_filter_pred(keep, at);
}

/// Whoever presents no license or one that was not verified is told so. A license
/// that does not entitle to what is asked for is refused, and what is not there or
/// not on sale is not found.
pub proof fn law_refused_holder_is_told_why(
    header: Option<Seq<char>>,
    verified: Option<licenses::LicenseClaimsView>,
    employee_id: Seq<char>,
    claims: licenses::LicenseClaimsView,
    products: Seq<catalog::AiEmployeeProductView>,
    skills: Seq<catalog::OperationSkillView>,
    now: int,
)
    ensures
        licensed(header, verified) matches Err(e) ==> e.status == 401,
        package_outcome(employee_id, claims, products, skills, now) matches Err(e) ==> {
            let held = exists|i: int|
                0 <= i < claims.ai_employees.len() && (#[trigger] claims.ai_employees[i]).id
                    == employee_id && claims.ai_employees[i].expires_at > now;
            &&& !held ==> e.status == 403
            &&& held ==> e.status == 404
        },
{
    law_owned_until_it_expires(claims.ai_employees, employee_id, now);
}

} // verus!
