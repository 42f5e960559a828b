//! Whether an AI employee or a skill can be deleted, and what stands in the
//! way.

use vstd::prelude::*;

use crate::catalog;
use crate::catalog::{AiEmployeeProduct, OperationSkill};
use crate::clock;
use crate::licenses;
use crate::licenses::LicenseRecord;
use crate::lookup;
use crate::market;
use crate::paths;
use crate::rejection;
use crate::rejection::{refuse, Rejection};
use crate::sorting;
use crate::sorting::Ranked;
use crate::text;

verus! {

/// A license that an AI employee is still needed for.
pub struct AiEmployeeDeletionBlocker {
    pub license_id: String,
    pub customer_name: String,
    pub expires_at: i64,
}

/// What a `AiEmployeeDeletionBlocker` holds.
#[verifier::ext_equal]
pub struct AiEmployeeDeletionBlockerView {
    pub license_id: Seq<char>,
    pub customer_name: Seq<char>,
    pub expires_at: i64,
}

impl View for AiEmployeeDeletionBlocker {
    type V = AiEmployeeDeletionBlockerView;

    open spec fn view(&self) -> AiEmployeeDeletionBlockerView {
        AiEmployeeDeletionBlockerView {
            license_id: self.license_id@,
            customer_name: self.customer_name@,
            expires_at: self.expires_at,
        }
    }
}

/// Whether an AI employee can be deleted.
pub struct AiEmployeeDeletionEligibility {
    pub can_delete: bool,
    pub blockers: Vec<AiEmployeeDeletionBlocker>,
}

/// What a `AiEmployeeDeletionEligibility` holds.
#[verifier::ext_equal]
pub struct AiEmployeeDeletionEligibilityView {
    pub can_delete: bool,
    pub blockers: Seq<AiEmployeeDeletionBlockerView>,
}

impl View for AiEmployeeDeletionEligibility {
    type V = AiEmployeeDeletionEligibilityView;

    open spec fn view(&self) -> AiEmployeeDeletionEligibilityView {
        AiEmployeeDeletionEligibilityView {
            can_delete: self.can_delete,
            blockers: text::views(self.blockers@),
        }
    }
}

/// An AI employee that still has a skill.
pub struct SkillDeletionBlocker {
    pub employee_id: String,
    pub employee_title: String,
    pub employee_status: String,
}

/// What a `SkillDeletionBlocker` holds.
#[verifier::ext_equal]
pub struct SkillDeletionBlockerView {
    pub employee_id: Seq<char>,
    pub employee_title: Seq<char>,
    pub employee_status: Seq<char>,
}

impl View for SkillDeletionBlocker {
    type V = SkillDeletionBlockerView;

    open spec fn view(&self) -> SkillDeletionBlockerView {
        SkillDeletionBlockerView {
            employee_id: self.employee_id@,
            employee_title: self.employee_title@,
            employee_status: self.employee_status@,
        }
    }
}

/// Whether a skill can be deleted.
pub struct SkillDeletionEligibility {
    pub can_delete: bool,
    pub blockers: Vec<SkillDeletionBlocker>,
}

/// What a `SkillDeletionEligibility` holds.
#[verifier::ext_equal]
pub struct SkillDeletionEligibilityView {
    pub can_delete: bool,
    pub blockers: Seq<SkillDeletionBlockerView>,
}

impl View for SkillDeletionEligibility {
    type V = SkillDeletionEligibilityView;

    open spec fn view(&self) -> SkillDeletionEligibilityView {
        SkillDeletionEligibilityView {
            can_delete: self.can_delete,
            blockers: text::views(self.blockers@),
        }
    }
}

impl Ranked for AiEmployeeDeletionBlocker {
    open spec fn rank_le(
        a: AiEmployeeDeletionBlockerView,
        b: AiEmployeeDeletionBlockerView,
    ) -> bool {
        a.expires_at <= b.expires_at
    }

    proof fn rank_total(a: AiEmployeeDeletionBlockerView, b: AiEmployeeDeletionBlockerView) {
    }

    proof fn rank_transitive(
        a: AiEmployeeDeletionBlockerView,
        b: AiEmployeeDeletionBlockerView,
        c: AiEmployeeDeletionBlockerView,
    ) {
    }

    fn may_precede(&self, other: &Self) -> (r: bool) {
        self.expires_at <= other.expires_at
    }
}

impl Ranked for SkillDeletionBlocker {
    open spec fn rank_le(a: SkillDeletionBlockerView, b: SkillDeletionBlockerView) -> bool {
        text::text_le(a.employee_title, b.employee_title)
    }

    proof fn rank_total(a: SkillDeletionBlockerView, b: SkillDeletionBlockerView) {
        text::lemma_text_le_total(a.employee_title, b.employee_title);
    }

    proof fn rank_transitive(
        a: SkillDeletionBlockerView,
        b: SkillDeletionBlockerView,
        c: SkillDeletionBlockerView,
    ) {
        text::lemma_text_le_transitive(a.employee_title, b.employee_title, c.employee_title);
    }

    fn may_precede(&self, other: &Self) -> (r: bool) {
        text::in_order(self.employee_title.as_str(), other.employee_title.as_str())
    }
}

/// The name of the customer of a license.
pub open spec fn customer_of(license: licenses::LicenseRecordView) -> Seq<char> {
    if text::blank(license.customer_name_snapshot) {
        license.subject
    } else {
        license.customer_name_snapshot
    }
}

/// How a license stands in the way of the deletion of an AI employee, if it
/// does: it lasts, and entitles to the AI employee.
pub open spec fn blocks_employee(
    license: licenses::LicenseRecordView,
    employee_id: Seq<char>,
    now: int,
) -> Option<AiEmployeeDeletionBlockerView> {
    if license.platform_status == "destroyed"@ || license.expires_at <= now {
        None
    } else {
        match market::owned(license.ai_employees, employee_id, now) {
            Some(employee) => Some(
                AiEmployeeDeletionBlockerView {
                    license_id: license.license_id,
                    customer_name: customer_of(license),
                    expires_at: employee.expires_at,
                },
            ),
            None => None,
        }
    }
}

/// What stands in the way of the deletion of an AI employee, in the order of
/// the licenses.
pub open spec fn employee_blockers(
    records: Seq<licenses::LicenseRecordView>,
    employee_id: Seq<char>,
    now: int,
) -> Seq<AiEmployeeDeletionBlockerView>
    decreases records.len(),
{
    if records.len() == 0 {
        Seq::empty()
    } else {
        let before = employee_blockers(records.drop_last(), employee_id, now);
        match blocks_employee(records.last(), employee_id, now) {
            Some(blocker) => before.push(blocker),
            None => before,
        }
    }
}

/// Whether an AI employee can be deleted. What stands in the way is in the
/// order in which it expires.
pub open spec fn employee_eligibility(
    records: Seq<licenses::LicenseRecordView>,
    employee_id: Seq<char>,
    now: int,
) -> AiEmployeeDeletionEligibilityView {
    let blockers = employee_blockers(records, employee_id, now);
    AiEmployeeDeletionEligibilityView {
        can_delete: blockers.len() == 0,
        blockers: sorting::sorted_by_rank::<AiEmployeeDeletionBlocker>(blockers),
    }
}

/// Whether an AI employee can be deleted at a second.
pub fn ai_employee_deletion_eligibility_from_licenses(
    licenses: &Vec<LicenseRecord>,
    employee_id: &str,
    now: i64,
) -> (r: AiEmployeeDeletionEligibility)
    ensures
        r@ == employee_eligibility(text::views(licenses@), employee_id@, now as int),
{
    let ghost all = text::views(licenses@);
    let mut blockers: Vec<AiEmployeeDeletionBlocker> = Vec::new();
    let mut i: usize = 0;
    assert(all.take(0) =~= Seq::<licenses::LicenseRecordView>::empty());
    assert(text::views(blockers@) =~= Seq::<AiEmployeeDeletionBlockerView>::empty());
    while i < licenses.len()
        invariant
            i <= licenses@.len(),
            all == text::views(licenses@),
            text::views(blockers@) == employee_blockers(
                all.take(i as int),
                employee_id@,
                now as int,
            ),
        decreases licenses@.len() - i,
    {
        let license = &licenses[i];
        proof {
            assert(all.take(i + 1).drop_last() =~= all.take(i as int));
            assert(all.take(i + 1).last() == license@);
        }
        if !text::same(license.platform_status.as_str(), "destroyed") && license.expires_at > now {
            match market::find_owned(&license.ai_employees, employee_id, now) {
                Some(employee) => {
                    let blocker = AiEmployeeDeletionBlocker {
                        license_id: license.license_id.clone(),
                        customer_name: if text::is_blank(
                            license.customer_name_snapshot.as_str(),
                        ) {
                            license.subject.clone()
                        } else {
                            license.customer_name_snapshot.clone()
                        },
                        expires_at: employee.expires_at,
                    };
                    proof {
                        text::lemma_views_push(blockers@, blocker);
                    }
                    blockers.push(blocker);
                },
                None => {},
            }
        }
        i = i + 1;
    }
    assert(all.take(all.len() as int) =~= all);
    let can_delete = blockers.len() == 0;
    assert(text::views(blockers@).len() == blockers@.len());
    AiEmployeeDeletionEligibility { can_delete, blockers: sorting::stable_sort(blockers) }
}

/// Whether an AI employee can be deleted now.
pub fn ai_employee_deletion_eligibility(
    licenses: &Vec<LicenseRecord>,
    employee_id: &str,
) -> (r: AiEmployeeDeletionEligibility)
    ensures
        exists|now: int|
            0 <= now <= clock::LAST_SECOND && r@ == #[trigger] employee_eligibility(
                text::views(licenses@),
                employee_id@,
                now,
            ),
{
    let now = clock::now();
    let ghost eligibility = employee_eligibility(
        text::views(licenses@),
        employee_id@,
        now as int,
    );
    ai_employee_deletion_eligibility_from_licenses(licenses, employee_id, now)
}

/// Asks whether an AI employee that is in the catalog can be deleted.
pub fn get_ai_employee_deletion_eligibility(
    licenses: &Vec<LicenseRecord>,
    products: &Vec<AiEmployeeProduct>,
    employee_id: &str,
) -> (r: Result<AiEmployeeDeletionEligibility, Rejection>)
    ensures
        exists|now: int|
            0 <= now <= clock::LAST_SECOND && rejection::outcome(r) == (if catalog::product_with(
                text::views(products@),
                employee_id@,
            ) is None {
                Err::<AiEmployeeDeletionEligibilityView, rejection::RejectionView>(
                    rejection::refusal(rejection::NOT_FOUND, "AI 员工不存在"@),
                )
            } else {
                Ok(
                    #[trigger] employee_eligibility(
                        text::views(licenses@),
                        employee_id@,
                        now,
                    ),
                )
            }),
{
    let eligibility = ai_employee_deletion_eligibility(licenses, employee_id);
    if lookup::find(products, employee_id).is_none() {
        return Err(refuse(rejection::NOT_FOUND, "AI 员工不存在"));
    }
    Ok(eligibility)
}

proof fn lemma_employee_blockers(
    records: Seq<licenses::LicenseRecordView>,
    employee_id: Seq<char>,
    now: int,
)
    ensures
        employee_blockers(records, employee_id, now).len() == 0 <==> forall|i: int|
            0 <= i < records.len() ==> blocks_employee(#[trigger] records[i], employee_id, now)
                is None,
    decreases records.len(),
{
    if records.len() > 0 {
        let init = records.drop_last();
        lemma_employee_blockers(init, employee_id, now);
        assert(records[records.len() - 1] == records.last());
        if employee_blockers(records, employee_id, now).len() == 0 {
            assert forall|i: int| 0 <= i < records.len() implies blocks_employee(
                #[trigger] records[i],
                employee_id,
                now,
            ) is None by {
                if i < init.len() {
                    assert(blocks_employee(init[i], employee_id, now) is None);
                }
            }
        }
        if forall|i: int|
            0 <= i < records.len() ==> blocks_employee(#[trigger] records[i], employee_id, now)
                is None {
            assert forall|i: int| 0 <= i < init.len() implies blocks_employee(
                #[trigger] init[i],
                employee_id,
                now,
            ) is None by {
                assert(records[i] == init[i]);
            }
        }
    }
}

/// An AI employee can be deleted if and only if no license that lasts entitles
/// to it, and what stands in the way is in the order in which it expires.
pub proof fn law_employee_in_use_is_kept(
    records: Seq<licenses::LicenseRecordView>,
    employee_id: Seq<char>,
    now: int,
)
    ensures
        employee_eligibility(records, employee_id, now).can_delete <==> forall|i: int|
            0 <= i < records.len() && (#[trigger] records[i]).platform_status != "destroyed"@
                && records[i].expires_at > now ==> market::owned(
                records[i].ai_employees,
                employee_id,
                now,
            ) is None,
        sorting::ranked::<AiEmployeeDeletionBlocker>(
            employee_eligibility(records, employee_id, now).blockers,
        ),
{
    lemma_employee_blockers(records, employee_id, now);
    sorting::lemma_sorted_by_rank::<AiEmployeeDeletionBlocker>(
        employee_blockers(records, employee_id, now),
    );
    if employee_eligibility(records, employee_id, now).can_delete {
        assert forall|i: int|
            0 <= i < records.len() && (#[trigger] records[i]).platform_status != "destroyed"@
                && records[i].expires_at > now implies market::owned(
            records[i].ai_employees,
            employee_id,
            now,
        ) is None by {
            assert(blocks_employee(records[i], employee_id, now) is None);
        }
    }
    if forall|i: int|
        0 <= i < records.len() && (#[trigger] records[i]).platform_status != "destroyed"@
            && records[i].expires_at > now ==> market::owned(
            records[i].ai_employees,
            employee_id,
            now,
        ) is None {
        assert forall|i: int| 0 <= i < records.len() implies blocks_employee(
            #[trigger] records[i],
            employee_id,
            now,
        ) is None by {}
    }
}

/// What is wrong with a request to delete an AI employee, if anything.
pub open spec fn employee_deletion_flaw(
    records: Seq<licenses::LicenseRecordView>,
    products: Seq<catalog::AiEmployeeProductView>,
    employee_id: Seq<char>,
    now: int,
) -> Option<rejection::RejectionView> {
    if !employee_eligibility(records, employee_id, now).can_delete {
        Some(
            rejection::refusal(rejection::CONFLICT, "该 AI 员工仍存在有效客户授权，暂不能删除"@),
        )
    } else if catalog::product_with(products, employee_id) is None {
        Some(rejection::refusal(rejection::NOT_FOUND, "AI 员工不存在"@))
    } else {
        None
    }
}

/// The picture that goes with an AI employee, where it is a plain file name.
pub open spec fn picture_of(product: catalog::AiEmployeeProductView) -> Option<Seq<char>> {
    match product.avatar_url {
        Some(name) => if paths::is_plain_name(name) {
            Some(name)
        } else {
            None
        },
        None => None,
    }
}

/// An AI employee that is deleted: what stood in the way, which is nothing,
/// and the picture to remove.
pub struct DeletedEmployee {
    pub eligibility: AiEmployeeDeletionEligibility,
    pub picture: Option<String>,
}

/// Deletes an AI employee at a second.
pub fn delete_ai_employee_product(
    licenses: &Vec<LicenseRecord>,
    products: &Vec<AiEmployeeProduct>,
    employee_id: &str,
    now: i64,
) -> (r: Result<DeletedEmployee, Rejection>)
    ensures
        match employee_deletion_flaw(
            text::views(licenses@),
            text::views(products@),
            employee_id@,
            now as int,
        ) {
            Some(flaw) => r matches Err(e) && e@ == flaw,
            None => r matches Ok(done) && done.eligibility@ == employee_eligibility(
                text::views(licenses@),
                employee_id@,
                now as int,
            ) && text::opt_view(done.picture) == picture_of(
                catalog::product_with(text::views(products@), employee_id@)->Some_0,
            ),
        },
{
    let eligibility = ai_employee_deletion_eligibility_from_licenses(licenses, employee_id, now);
    if !eligibility.can_delete {
        return Err(
            refuse(rejection::CONFLICT, "该 AI 员工仍存在有效客户授权，暂不能删除"),
        );
    }
    match lookup::find(products, employee_id) {
        None => Err(refuse(rejection::NOT_FOUND, "AI 员工不存在")),
        Some(product) => {
            let picture = match &product.avatar_url {
                Some(name) => if paths::plain_name(name.as_str()) {
                    Some(name.clone())
                } else {
                    None
                },
                None => None,
            };
            Ok(DeletedEmployee { eligibility, picture })
        },
    }
}

/// How an AI employee stands in the way of the deletion of a skill.
pub open spec fn skill_blocker_of(product: catalog::AiEmployeeProductView) -> SkillDeletionBlockerView {
    SkillDeletionBlockerView {
        employee_id: product.id,
        employee_title: product.title,
        employee_status: product.status,
    }
}

/// What stands in the way of the deletion of a skill: the AI employees that
/// have it.
pub open spec fn skill_blockers(
    products: Seq<catalog::AiEmployeeProductView>,
    skill_id: Seq<char>,
) -> Seq<SkillDeletionBlockerView> {
    products.filter(|p: catalog::AiEmployeeProductView| catalog::has_skill(p, skill_id)).map_values(
        |p: catalog::AiEmployeeProductView| skill_blocker_of(p),
    )
}

/// Whether a skill can be deleted. What stands in the way is in the order of
/// the titles.
pub open spec fn skill_eligibility(
    products: Seq<catalog::AiEmployeeProductView>,
    skill_id: Seq<char>,
) -> SkillDeletionEligibilityView {
    let blockers = skill_blockers(products, skill_id);
    SkillDeletionEligibilityView {
        can_delete: blockers.len() == 0,
        blockers: sorting::sorted_by_rank::<SkillDeletionBlocker>(blockers),
    }
}

/// Whether a skill can be deleted.
pub fn operation_skill_deletion_eligibility(
    products: &Vec<AiEmployeeProduct>,
    skill_id: &str,
) -> (r: SkillDeletionEligibility)
    ensures
        r@ == skill_eligibility(text::views(products@), skill_id@),
{
    let ghost all = text::views(products@);
    let ghost owns = |p: catalog::AiEmployeeProductView| catalog::has_skill(p, skill_id@);
    let ghost show = |p: catalog::AiEmployeeProductView| skill_blocker_of(p);
    let mut blockers: Vec<SkillDeletionBlocker> = Vec::new();
    let mut i: usize = 0;
    assert(all.take(0).filter(owns) =~= Seq::<catalog::AiEmployeeProductView>::empty());
    assert(text::views(blockers@) =~= all.take(0).filter(owns).map_values(show));
    while i < products.len()
        invariant
            i <= products@.len(),
            all == text::views(products@),
            owns == (|p: catalog::AiEmployeeProductView| catalog::has_skill(p, skill_id@)),
            show == (|p: catalog::AiEmployeeProductView| skill_blocker_of(p)),
            text::views(blockers@) == all.take(i as int).filter(owns).map_values(show),
        decreases products@.len() - i,
    {
        let product = &products[i];
        let ghost kept = all.take(i as int).filter(owns);
        proof {
            assert(all.take(i + 1) =~= all.take(i as int).push(product@));
            all.take(i as int).lemma_filter_push(product@, owns);
        }
        if text::contains_text(&product.skill_ids, skill_id) {
            let blocker = SkillDeletionBlocker {
                employee_id: product.id.clone(),
                employee_title: product.title.clone(),
                employee_status: product.status.clone(),
            };
            proof {
                assert(owns(product@));
                text::lemma_views_push(blockers@, blocker);
                assert(kept.push(product@).map_values(show) =~= kept.map_values(show).push(
                    show(product@),
                ));
            }
            blockers.push(blocker);
        } else {
            assert(!owns(product@));
        }
        i = i + 1;
    }
    assert(all.take(all.len() as int) =~= all);
    let can_delete = blockers.len() == 0;
    assert(text::views(blockers@).len() == blockers@.len());
    SkillDeletionEligibility { can_delete, blockers: sorting::stable_sort(blockers) }
}

/// Asks whether a skill that is in the catalog can be deleted.
pub fn get_operation_skill_deletion_eligibility(
    products: &Vec<AiEmployeeProduct>,
    skills: &Vec<OperationSkill>,
    skill_id: &str,
) -> (r: Result<SkillDeletionEligibility, Rejection>)
    ensures
        rejection::outcome(r) == (if catalog::skill_with(
            text::views(skills@),
            text::trimmed(skill_id@),
        ) is None {
            Err::<SkillDeletionEligibilityView, rejection::RejectionView>(
                rejection::refusal(rejection::NOT_FOUND, "Skill 不存在"@),
            )
        } else {
            Ok(skill_eligibility(text::views(products@), text::trimmed(skill_id@)))
        }),
{
    let id = text::trim_owned(skill_id);
    if lookup::find(skills, id.as_str()).is_none() {
        return Err(refuse(rejection::NOT_FOUND, "Skill 不存在"));
    }
    Ok(operation_skill_deletion_eligibility(products, id.as_str()))
}

/// A skill can be deleted if and only if no AI employee has it, and what
/// stands in the way is in the order of the titles.
pub proof fn law_skill_in_use_is_kept(
    products: Seq<catalog::AiEmployeeProductView>,
    skill_id: Seq<char>,
)
    ensures
        skill_eligibility(products, skill_id).can_delete <==> forall|i: int|
            0 <= i < products.len() ==> !catalog::has_skill(#[trigger] products[i], skill_id),
        sorting::ranked::<SkillDeletionBlocker>(skill_eligibility(products, skill_id).blockers),
{
    let owns = |p: catalog::AiEmployeeProductView| catalog::has_skill(p, skill_id);
    let kept = products.filter(owns);
    sorting::lemma_sorted_by_rank::<SkillDeletionBlocker>(skill_blockers(products, skill_id));
    if kept.len() == 0 {
        assert forall|i: int| 0 <= i < products.len() implies !catalog::has_skill(
            #[trigger] products[i],
            skill_id,
        ) by {
            if owns(products[i]) {
                products.lemma_filter_contains(owns, i);
                assert(kept.contains(products[i]));
            }
        }
    } else {
        products.lemma_filter_pred(owns, 0);
        assert(kept.contains(kept[0]));
        products.lemma_filter_contains_rev(owns, kept[0]);
        let i = products.index_of(kept[0]);
        assert(catalog::has_skill(products[i], skill_id));
    }
}

/// What is wrong with a request to delete a skill, if anything.
pub open spec fn skill_deletion_flaw(
    products: Seq<catalog::AiEmployeeProductView>,
    skills: Seq<catalog::OperationSkillView>,
    skill_id: Seq<char>,
) -> Option<rejection::RejectionView> {
    if catalog::skill_with(skills, text::trimmed(skill_id)) is None {
        Some(rejection::refusal(rejection::NOT_FOUND, "Skill 不存在"@))
    } else if !skill_eligibility(products, text::trimmed(skill_id)).can_delete {
        Some(rejection::refusal(rejection::CONFLICT, "该 Skill 仍被 AI 员工引用，暂不能删除"@))
    } else {
        None
    }
}

/// A skill that is deleted: what stood in the way, which is nothing, and the
/// directory of its package to remove.
pub struct DeletedSkill {
    pub eligibility: SkillDeletionEligibility,
    pub package: Option<String>,
}

/// Deletes a skill.
pub fn delete_operation_skill(
    products: &Vec<AiEmployeeProduct>,
    skills: &Vec<OperationSkill>,
    skill_id: &str,
) -> (r: Result<DeletedSkill, Rejection>)
    ensures
        match skill_deletion_flaw(text::views(products@), text::views(skills@), skill_id@) {
            Some(flaw) => r matches Err(e) && e@ == flaw,
            None => {
                let name = catalog::skill_with(
                    text::views(skills@),
                    text::trimmed(skill_id@),
                )->Some_0.package_name;
                r matches Ok(done) && done.eligibility@ == skill_eligibility(
                    text::views(products@),
                    text::trimmed(skill_id@),
                ) && text::opt_view(done.package) == (if paths::is_single_component(name) {
                    Some(name)
                } else {
                    None
                })
            },
        },
{
    let id = text::trim_owned(skill_id);
    match lookup::find(skills, id.as_str()) {
        None => Err(refuse(rejection::NOT_FOUND, "Skill 不存在")),
        Some(skill) => {
            let eligibility = operation_skill_deletion_eligibility(products, id.as_str());
            if !eligibility.can_delete {
                return Err(
                    refuse(rejection::CONFLICT, "该 Skill 仍被 AI 员工引用，暂不能删除"),
                );
            }
            let package = if paths::single_component(skill.package_name.as_str()) {
                Some(skill.package_name.clone())
            } else {
                None
            };
            Ok(DeletedSkill { eligibility, package })
        },
    }
}

/// Whether what stands in the way of the deletion of an AI employee is a license:
/// one that was not destroyed and has not expired, with an entitlement to the AI
/// employee that has not ended either. It names the customer, or the identifier of
/// the customer where no name was kept.
pub open spec fn is_blocking_license(
    blocker: AiEmployeeDeletionBlockerView,
    license: licenses::LicenseRecordView,
    employee_id: Seq<char>,
    now: int,
) -> bool {
    &&& license.platform_status != "destroyed"@
    &&& license.expires_at > now
    &&& blocker.license_id == license.license_id
    &&& blocker.customer_name == (if text::trimmed(license.customer_name_snapshot).len() > 0 {
        license.customer_name_snapshot
    } else {
        license.subject
    })
    &&& exists|k: int|
        0 <= k < license.ai_employees.len() && (#[trigger] license.ai_employees[k]).id
            == employee_id && license.ai_employees[k].expires_at > now
            && license.ai_employees[k].expires_at == blocker.expires_at
}

proof fn lemma_owned_is_one(
    employees: Seq<licenses::AiEmployeeEntitlementView>,
    id: Seq<char>,
    now: int,
)
    ensures
        market::owned(employees, id, now) matches Some(employee) ==> exists|k: int|
            0 <= k < employees.len() && (#[trigger] employees[k]).id == id
                && employees[k].expires_at > now && employees[k].expires_at == employee.expires_at,
    decreases employees.len(),
{
    if employees.len() > 0 {
        if employees[0].id == id && employees[0].expires_at > now {
        } else {
            let rest = employees.skip(1);
            lemma_owned_is_one(rest, id, now);
            match market::owned(rest, id, now) {
                Some(employee) => {
                    let k = choose|k: int|
                        0 <= k < rest.len() && (#[trigger] rest[k]).id == id && rest[k].expires_at
                            > now && rest[k].expires_at == employee.expires_at;
                    assert(employees[k + 1] == rest[k]);
                },
                None => {},
            }
        }
    }
}

proof fn lemma_blockers_are_licenses(
    records: Seq<licenses::LicenseRecordView>,
    employee_id: Seq<char>,
    now: int,
)
    ensures
        forall|b: int|
            0 <= b < employee_blockers(records, employee_id, now).len() ==> exists|i: int|
                0 <= i < records.len() && is_blocking_license(
                    #[trigger] employee_blockers(records, employee_id, now)[b],
                    #[trigger] records[i],
                    employee_id,
                    now,
                ),
    decreases records.len(),
{
    if records.len() > 0 {
        let init = records.drop_last();
        let last = records.last();
        lemma_blockers_are_licenses(init, employee_id, now);
        let before = employee_blockers(init, employee_id, now);
        let all = employee_blockers(records, employee_id, now);
        lemma_owned_is_one(last.ai_employees, employee_id, now);
        assert(records[records.len() - 1] == last);
        assert forall|b: int| 0 <= b < all.len() implies exists|i: int|
            0 <= i < records.len() && is_blocking_license(
                #[trigger] all[b],
                #[trigger] records[i],
                employee_id,
                now,
            ) by {
            if b < before.len() {
                assert(all[b] == before[b]);
                let i = choose|i: int|
                    0 <= i < init.len() && is_blocking_license(
                        before[b],
                        #[trigger] init[i],
                        employee_id,
                        now,
                    );
                assert(records[i] == init[i]);
            } else {
                assert(is_blocking_license(all[b], records[records.len() - 1], employee_id, now));
            }
        }
    }
}

/// What stands in the way of the deletion of an AI employee are licenses that
/// entitle to it, the one that ends first before the others. Each license that
/// does stands in the way.
pub proof fn law_blockers_are_the_licenses_in_use(
    records: Seq<licenses::LicenseRecordView>,
    employee_id: Seq<char>,
    now: int,
)
    ensures
        ({
            let eligibility = employee_eligibility(records, employee_id, now);
            &&& eligibility.can_delete <==> eligibility.blockers.len() == 0
            &&& eligibility.can_delete <==> forall|i: int|
                0 <= i < records.len() && (#[trigger] records[i]).platform_status != "destroyed"@
                    && records[i].expires_at > now ==> forall|k: int|
                    0 <= k < records[i].ai_employees.len() && (
                    #[trigger] records[i].ai_employees[k]).id == employee_id
                        ==> records[i].ai_employees[k].expires_at <= now
            &&& forall|b: int|
                0 <= b < eligibility.blockers.len() ==> exists|i: int|
                    0 <= i < records.len() && is_blocking_license(
                        #[trigger] eligibility.blockers[b],
                        #[trigger] records[i],
                        employee_id,
                        now,
                    )
            &&& forall|b: int, c: int|
                0 <= b < c < eligibility.blockers.len() ==> (
                #[trigger] eligibility.blockers[b]).expires_at <= (
                #[trigger] eligibility.blockers[c]).expires_at
        }),
{
    let eligibility = employee_eligibility(records, employee_id, now);
    let plain = employee_blockers(records, employee_id, now);
    law_employee_in_use_is_kept(records, employee_id, now);
    lemma_blockers_are_licenses(records, employee_id, now);
    sorting::lemma_sorted_by_rank::<AiEmployeeDeletionBlocker>(plain);
    sorting::lemma_same_members(eligibility.blockers, plain);
    assert(plain.to_multiset().len() == plain.len()) by {
        broadcast use vstd::seq_lib::group_to_multiset_ensures;

    }
    assert(eligibility.blockers.to_multiset().len() == eligibility.blockers.len()) by {
        broadcast use vstd::seq_lib::group_to_multiset_ensures;

    }
    assert forall|b: int| 0 <= b < eligibility.blockers.len() implies exists|i: int|
        0 <= i < records.len() && is_blocking_license(
            #[trigger] eligibility.blockers[b],
            #[trigger] records[i],
            employee_id,
            now,
        ) by {
        let blocker = eligibility.blockers[b];
        assert(eligibility.blockers.contains(blocker));
        assert(plain.contains(blocker));
        let k = plain.index_of(blocker);
        assert(plain[k] == blocker);
    }
    assert forall|b: int, c: int| 0 <= b < c < eligibility.blockers.len() implies (
    #[trigger] eligibility.blockers[b]).expires_at <= (
    #[trigger] eligibility.blockers[c]).expires_at by {
        assert(AiEmployeeDeletionBlocker::rank_le(
            eligibility.blockers[b],
            eligibility.blockers[c],
        ));
    }
    assert forall|i: int| 0 <= i < records.len() implies (market::owned(
        (#[trigger] records[i]).ai_employees,
        employee_id,
        now,
    ) is None <==> forall|k: int|
        0 <= k < records[i].ai_employees.len() && (#[trigger] records[i].ai_employees[k]).id
            == employee_id ==> records[i].ai_employees[k].expires_at <= now) by {
        market::law_owned_until_it_expires(records[i].ai_employees, employee_id, now);
    }
}

/// An AI employee is deleted exactly where nothing stands in the way and it is
/// there.
pub proof fn law_employee_is_deleted_when_unused(
    records: Seq<licenses::LicenseRecordView>,
    products: Seq<catalog::AiEmployeeProductView>,
    employee_id: Seq<char>,
    now: int,
)
    ensures
        employee_deletion_flaw(records, products, employee_id, now) is None <==> {
            &&& employee_eligibility(records, employee_id, now).blockers.len() == 0
            &&& lookup::found::<AiEmployeeProduct>(products, employee_id) is Some
        },
{
    law_blockers_are_the_licenses_in_use(records, employee_id, now);
}

/// What stands in the way of the deletion of a skill are the AI employees that have
/// it, each with its title and its status, in the order of the titles.
pub proof fn law_skill_blockers_are_the_employees(
    products: Seq<catalog::AiEmployeeProductView>,
    skill_id: Seq<char>,
)
    ensures
        ({
            let eligibility = skill_eligibility(products, skill_id);
            &&& eligibility.can_delete <==> forall|i: int|
                0 <= i < products.len() ==> !(#[trigger] products[i]).skill_ids.contains(skill_id)
            &&& forall|b: int|
                0 <= b < eligibility.blockers.len() ==> exists|i: int|
                    {
                        &&& 0 <= i < products.len()
                        &&& (#[trigger] products[i]).skill_ids.contains(skill_id)
                        &&& products[i].id == (#[trigger] eligibility.blockers[b]).employee_id
                        &&& products[i].title == eligibility.blockers[b].employee_title
                        &&& products[i].status == eligibility.blockers[b].employee_status
                    }
            &&& forall|b: int, c: int|
                0 <= b < c < eligibility.blockers.len() ==> text::text_le(
                    (#[trigger] eligibility.blockers[b]).employee_title,
                    (#[trigger] eligibility.blockers[c]).employee_title,
                )
        }),
{
    let eligibility = skill_eligibility(products, skill_id);
    let owns = |p: catalog::AiEmployeeProductView| catalog::has_skill(p, skill_id);
    let kept = products.filter(owns);
    let plain = skill_blockers(products, skill_id);
    law_skill_in_use_is_kept(products, skill_id);
    assert(eligibility.can_delete <==> forall|i: int|
        0 <= i < products.len() ==> !(#[trigger] products[i]).skill_ids.contains(skill_id)) by {
        if eligibility.can_delete {
            assert forall|i: int| 0 <= i < products.len() implies !(
            #[trigger] products[i]).skill_ids.contains(skill_id) by {
                assert(!catalog::has_skill(products[i], skill_id));
            }
        }
    }
    sorting::lemma_sorted_by_rank::<SkillDeletionBlocker>(plain);
    sorting::lemma_same_members(eligibility.blockers, plain);
    assert forall|b: int| 0 <= b < eligibility.blockers.len() implies exists|i: int|
        {
            &&& 0 <= i < products.len()
            &&& (#[trigger] products[i]).skill_ids.contains(skill_id)
            &&& products[i].id == (#[trigger] eligibility.blockers[b]).employee_id
            &&& products[i].title == eligibility.blockers[b].employee_title
            &&& products[i].status == eligibility.blockers[b].employee_status
        } by {
        let blocker = eligibility.blockers[b];
        assert(eligibility.blockers.contains(blocker));
        assert(plain.contains(blocker));
        let k = plain.index_of(blocker);
        sorting::lemma_left_is_wanted(products, owns, k);
        let i = products.index_of(kept[k]);
        assert(products[i] == kept[k]);
        assert(skill_blocker_of(kept[k]) == blocker);
    }
    assert forall|b: int, c: int| 0 <= b < c < eligibility.blockers.len() implies text::text_le(
        (#[trigger] eligibility.blockers[b]).employee_title,
        (#[trigger] eligibility.blockers[c]).employee_title,
    ) by {
        assert(SkillDeletionBlocker::rank_le(eligibility.blockers[b], eligibility.blockers[c]));
    }
}

/// A skill is deleted exactly where it is there and no AI employee has it.
pub proof fn law_skill_is_deleted_when_unused(
    products: Seq<catalog::AiEmployeeProductView>,
    skills: Seq<catalog::OperationSkillView>,
    skill_id: Seq<char>,
)
    ensures
        skill_deletion_flaw(products, skills, skill_id) is None <==> {
            &&& lookup::found::<catalog::OperationSkill>(skills, text::trimmed(skill_id)) is Some
            &&& forall|i: int|
                0 <= i < products.len() ==> !(#[trigger] products[i]).skill_ids.contains(
                    text::trimmed(skill_id),
                )
        },
{
    law_skill_blockers_are_the_employees(products, text::trimmed(skill_id));
}

/// The picture that is removed with an AI employee is the one that it has, and
/// never leads out of the directory of the pictures.
pub proof fn law_removed_picture_is_a_plain_file(product: catalog::AiEmployeeProductView)
    ensures
        picture_of(product) matches Some(name) ==> {
            &&& product.avatar_url == Some(name)
            &&& name.len() > 0
            &&& !name.contains('/')
            &&& name != "."@
            &&& name != ".."@
        },
        product.avatar_url is None ==> picture_of(product) is None,
{
}

/// A deletion that is refused says why: what is to be deleted is in use, or it is not
/// there.
pub proof fn law_refused_deletion_says_why(
    records: Seq<licenses::LicenseRecordView>,
    products: Seq<catalog::AiEmployeeProductView>,
    skills: Seq<catalog::OperationSkillView>,
    id: Seq<char>,
    now: int,
)
    ensures
        employee_deletion_flaw(records, products, id, now) matches Some(e) ==> {
            if employee_eligibility(records, id, now).blockers.len() > 0 {
                e.status == 409
            } else {
                e.status == 404
            }
        },
        skill_deletion_flaw(products, skills, id) matches Some(e) ==> {
            if lookup::found::<OperationSkill>(skills, text::trimmed(id)) is Some {
                e.status == 409
            } else {
                e.status == 404
            }
        },
{
    law_blockers_are_the_licenses_in_use(records, id, now);
}

} // verus!
