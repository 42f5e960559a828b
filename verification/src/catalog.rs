//! The catalog of AI employees and the skills they are made of.

use vstd::prelude::*;

use crate::copying::{duplicate_all, duplicate_opt, Duplicate};
use crate::clock;
use crate::ids;
use crate::lookup;
use crate::lookup::Keyed;
use crate::rejection;
use crate::rejection::{refuse, refuse_with, Rejection};
use crate::sorting;
use crate::sorting::Ranked;
use crate::text;
use crate::versions;

verus! {

/// An AI employee that is for sale.
pub struct AiEmployeeProduct {
    pub id: String,
    pub title: String,
    pub description: String,
    pub category: String,
    pub price_cents: i64,
    pub billing_cycle: String,
    pub version: String,
    pub package_version: String,
    pub skill_ids: Vec<String>,
    pub system_prompt: String,
    pub allow_network: bool,
    pub allowed_tools: Vec<String>,
    pub application_ids: Vec<String>,
    pub avatar_url: Option<String>,
    pub status: String,
    pub created_at: i64,
    pub updated_at: i64,
}

/// What a `AiEmployeeProduct` holds.
#[verifier::ext_equal]
pub struct AiEmployeeProductView {
    pub id: Seq<char>,
    pub title: Seq<char>,
    pub description: Seq<char>,
    pub category: Seq<char>,
    pub price_cents: i64,
    pub billing_cycle: Seq<char>,
    pub version: Seq<char>,
    pub package_version: Seq<char>,
    pub skill_ids: Seq<Seq<char>>,
    pub system_prompt: Seq<char>,
    pub allow_network: bool,
    pub allowed_tools: Seq<Seq<char>>,
    pub application_ids: Seq<Seq<char>>,
    pub avatar_url: Option<Seq<char>>,
    pub status: Seq<char>,
    pub created_at: i64,
    pub updated_at: i64,
}

impl View for AiEmployeeProduct {
    type V = AiEmployeeProductView;

    open spec fn view(&self) -> AiEmployeeProductView {
        AiEmployeeProductView {
            id: self.id@,
            title: self.title@,
            description: self.description@,
            category: self.category@,
            price_cents: self.price_cents,
            billing_cycle: self.billing_cycle@,
            version: self.version@,
            package_version: self.package_version@,
            skill_ids: text::views(self.skill_ids@),
            system_prompt: self.system_prompt@,
            allow_network: self.allow_network,
            allowed_tools: text::views(self.allowed_tools@),
            application_ids: text::views(self.application_ids@),
            avatar_url: text::opt_view(self.avatar_url),
            status: self.status@,
            created_at: self.created_at,
            updated_at: self.updated_at,
        }
    }
}

impl Duplicate for AiEmployeeProduct {
    fn duplicate(&self) -> (r: Self) {
        AiEmployeeProduct {
            id: self.id.clone(),
            title: self.title.clone(),
            description: self.description.clone(),
            category: self.category.clone(),
            price_cents: self.price_cents,
            billing_cycle: self.billing_cycle.clone(),
            version: self.version.clone(),
            package_version: self.package_version.clone(),
            skill_ids: duplicate_all(&self.skill_ids),
            system_prompt: self.system_prompt.clone(),
            allow_network: self.allow_network,
            allowed_tools: duplicate_all(&self.allowed_tools),
            application_ids: duplicate_all(&self.application_ids),
            avatar_url: duplicate_opt(&self.avatar_url),
            status: self.status.clone(),
            created_at: self.created_at,
            updated_at: self.updated_at,
        }
    }
}

/// What the public market shows of an AI employee.
pub struct AiEmployeeMarketProduct {
    pub id: String,
    pub title: String,
    pub description: String,
    pub category: String,
    pub price_cents: i64,
    pub billing_cycle: String,
    pub version: String,
    pub avatar_url: Option<String>,
}

/// What a `AiEmployeeMarketProduct` holds.
#[verifier::ext_equal]
pub struct AiEmployeeMarketProductView {
    pub id: Seq<char>,
    pub title: Seq<char>,
    pub description: Seq<char>,
    pub category: Seq<char>,
    pub price_cents: i64,
    pub billing_cycle: Seq<char>,
    pub version: Seq<char>,
    pub avatar_url: Option<Seq<char>>,
}

impl View for AiEmployeeMarketProduct {
    type V = AiEmployeeMarketProductView;

    open spec fn view(&self) -> AiEmployeeMarketProductView {
        AiEmployeeMarketProductView {
            id: self.id@,
            title: self.title@,
            description: self.description@,
            category: self.category@,
            price_cents: self.price_cents,
            billing_cycle: self.billing_cycle@,
            version: self.version@,
            avatar_url: text::opt_view(self.avatar_url),
        }
    }
}

/// A request to save an AI employee.
pub struct CreateAiEmployeeProductRequest {
    pub id: String,
    pub title: String,
    pub description: String,
    pub category: String,
    pub price_cents: i64,
    pub billing_cycle: String,
    pub skill_ids: Vec<String>,
    pub system_prompt: String,
    pub allow_network: bool,
    pub allowed_tools: Vec<String>,
    pub application_ids: Vec<String>,
}

/// What a `CreateAiEmployeeProductRequest` holds.
#[verifier::ext_equal]
pub struct CreateAiEmployeeProductRequestView {
    pub id: Seq<char>,
    pub title: Seq<char>,
    pub description: Seq<char>,
    pub category: Seq<char>,
    pub price_cents: i64,
    pub billing_cycle: Seq<char>,
    pub skill_ids: Seq<Seq<char>>,
    pub system_prompt: Seq<char>,
    pub allow_network: bool,
    pub allowed_tools: Seq<Seq<char>>,
    pub application_ids: Seq<Seq<char>>,
}

impl View for CreateAiEmployeeProductRequest {
    type V = CreateAiEmployeeProductRequestView;

    open spec fn view(&self) -> CreateAiEmployeeProductRequestView {
        CreateAiEmployeeProductRequestView {
            id: self.id@,
            title: self.title@,
            description: self.description@,
            category: self.category@,
            price_cents: self.price_cents,
            billing_cycle: self.billing_cycle@,
            skill_ids: text::views(self.skill_ids@),
            system_prompt: self.system_prompt@,
            allow_network: self.allow_network,
            allowed_tools: text::views(self.allowed_tools@),
            application_ids: text::views(self.application_ids@),
        }
    }
}

/// A skill that AI employees can have.
pub struct OperationSkill {
    pub id: String,
    pub title: String,
    pub package_name: String,
    pub source: String,
    pub version: String,
    pub package_path: String,
    pub description: String,
    pub instructions: String,
    pub status: String,
    pub created_at: i64,
    pub updated_at: i64,
}

/// What a `OperationSkill` holds.
#[verifier::ext_equal]
pub struct OperationSkillView {
    pub id: Seq<char>,
    pub title: Seq<char>,
    pub package_name: Seq<char>,
    pub source: Seq<char>,
    pub version: Seq<char>,
    pub package_path: Seq<char>,
    pub description: Seq<char>,
    pub instructions: Seq<char>,
    pub status: Seq<char>,
    pub created_at: i64,
    pub updated_at: i64,
}

impl View for OperationSkill {
    type V = OperationSkillView;

    open spec fn view(&self) -> OperationSkillView {
        OperationSkillView {
            id: self.id@,
            title: self.title@,
            package_name: self.package_name@,
            source: self.source@,
            version: self.version@,
            package_path: self.package_path@,
            description: self.description@,
            instructions: self.instructions@,
            status: self.status@,
            created_at: self.created_at,
            updated_at: self.updated_at,
        }
    }
}

impl Duplicate for OperationSkill {
    fn duplicate(&self) -> (r: Self) {
        OperationSkill {
            id: self.id.clone(),
            title: self.title.clone(),
            package_name: self.package_name.clone(),
            source: self.source.clone(),
            version: self.version.clone(),
            package_path: self.package_path.clone(),
            description: self.description.clone(),
            instructions: self.instructions.clone(),
            status: self.status.clone(),
            created_at: self.created_at,
            updated_at: self.updated_at,
        }
    }
}

/// A skill as it was when it was handed out.
pub struct OperationSkillSnapshot {
    pub id: String,
    pub title: String,
    pub package_name: String,
    pub source: String,
    pub version: String,
    pub package_path: String,
    pub description: String,
    pub instructions: String,
}

/// What a `OperationSkillSnapshot` holds.
#[verifier::ext_equal]
pub struct OperationSkillSnapshotView {
    pub id: Seq<char>,
    pub title: Seq<char>,
    pub package_name: Seq<char>,
    pub source: Seq<char>,
    pub version: Seq<char>,
    pub package_path: Seq<char>,
    pub description: Seq<char>,
    pub instructions: Seq<char>,
}

impl View for OperationSkillSnapshot {
    type V = OperationSkillSnapshotView;

    open spec fn view(&self) -> OperationSkillSnapshotView {
        OperationSkillSnapshotView {
            id: self.id@,
            title: self.title@,
            package_name: self.package_name@,
            source: self.source@,
            version: self.version@,
            package_path: self.package_path@,
            description: self.description@,
            instructions: self.instructions@,
        }
    }
}

impl Duplicate for OperationSkillSnapshot {
    fn duplicate(&self) -> (r: Self) {
        OperationSkillSnapshot {
            id: self.id.clone(),
            title: self.title.clone(),
            package_name: self.package_name.clone(),
            source: self.source.clone(),
            version: self.version.clone(),
            package_path: self.package_path.clone(),
            description: self.description.clone(),
            instructions: self.instructions.clone(),
        }
    }
}

/// A request to save a skill.
pub struct SaveOperationSkillRequest {
    pub id: String,
    pub title: String,
    pub source: String,
    pub description: String,
    pub instructions: String,
}

/// What a `SaveOperationSkillRequest` holds.
#[verifier::ext_equal]
pub struct SaveOperationSkillRequestView {
    pub id: Seq<char>,
    pub title: Seq<char>,
    pub source: Seq<char>,
    pub description: Seq<char>,
    pub instructions: Seq<char>,
}

impl View for SaveOperationSkillRequest {
    type V = SaveOperationSkillRequestView;

    open spec fn view(&self) -> SaveOperationSkillRequestView {
        SaveOperationSkillRequestView {
            id: self.id@,
            title: self.title@,
            source: self.source@,
            description: self.description@,
            instructions: self.instructions@,
        }
    }
}

/// A request for another status.
pub struct StatusRequest {
    pub status: String,
}

/// What a `StatusRequest` holds.
#[verifier::ext_equal]
pub struct StatusRequestView {
    pub status: Seq<char>,
}

impl View for StatusRequest {
    type V = StatusRequestView;

    open spec fn view(&self) -> StatusRequestView {
        StatusRequestView {
            status: self.status@,
        }
    }
}

impl Keyed for AiEmployeeProduct {
    open spec fn key_of(record: AiEmployeeProductView) -> Seq<char> {
        record.id
    }

    fn has_key(&self, key: &str) -> (r: bool) {
        text::same(self.id.as_str(), key)
    }
}

impl Keyed for OperationSkill {
    open spec fn key_of(record: OperationSkillView) -> Seq<char> {
        record.id
    }

    fn has_key(&self, key: &str) -> (r: bool) {
        text::same(self.id.as_str(), key)
    }
}

/// The AI employee with an identifier.
pub open spec fn product_with(products: Seq<AiEmployeeProductView>, id: Seq<char>) -> Option<
    AiEmployeeProductView,
> {
    lookup::found::<AiEmployeeProduct>(products, id)
}

/// The skill with an identifier.
pub open spec fn skill_with(skills: Seq<OperationSkillView>, id: Seq<char>) -> Option<
    OperationSkillView,
> {
    lookup::found::<OperationSkill>(skills, id)
}

/// A skill as it is handed out.
pub open spec fn snapshot_of(skill: OperationSkillView) -> OperationSkillSnapshotView {
    OperationSkillSnapshotView {
        id: skill.id,
        title: skill.title,
        package_name: skill.package_name,
        source: skill.source,
        version: skill.version,
        package_path: skill.package_path,
        description: skill.description,
        instructions: skill.instructions,
    }
}

/// The skills with some identifiers, in the order of the identifiers. An
/// identifier without a skill is left out.
pub open spec fn skills_among(
    ids: Seq<Seq<char>>,
    skills: Seq<OperationSkillView>,
) -> Seq<OperationSkillView>
    decreases ids.len(),
{
    if ids.len() == 0 {
        Seq::empty()
    } else {
        let before = skills_among(ids.drop_last(), skills);
        match skill_with(skills, ids.last()) {
            Some(skill) => before.push(skill),
            None => before,
        }
    }
}

/// The skills of an AI employee, each once, in the order of their identifiers.
pub open spec fn skills_of(
    product: AiEmployeeProductView,
    skills: Seq<OperationSkillView>,
) -> Seq<OperationSkillView> {
    skills_among(sorting::sorted_set(product.skill_ids), skills)
}

/// The skills of an AI employee as they are handed out.
pub open spec fn snapshots_of(
    product: AiEmployeeProductView,
    skills: Seq<OperationSkillView>,
) -> Seq<OperationSkillSnapshotView> {
    skills_of(product, skills).map_values(|s: OperationSkillView| snapshot_of(s))
}

/// The skills of an AI employee as they are handed out.
pub fn skill_snapshots(product: &AiEmployeeProduct, skills: &Vec<OperationSkill>) -> (r: Vec<
    OperationSkillSnapshot,
>)
    ensures
        text::views(r@) == snapshots_of(product@, text::views(skills@)),
{
    let ids = sorting::sort_unique(duplicate_all(&product.skill_ids));
    let ghost all = text::views(ids@);
    let ghost table = text::views(skills@);
    let mut out: Vec<OperationSkillSnapshot> = Vec::new();
    let mut i: usize = 0;
    assert(all.take(0) =~= Seq::<Seq<char>>::empty());
    assert(text::views(out@) =~= skills_among(all.take(0), table).map_values(
        |s: OperationSkillView| snapshot_of(s),
    ));
    while i < ids.len()
        invariant
            i <= ids@.len(),
            all == text::views(ids@),
            table == text::views(skills@),
            text::views(out@) == skills_among(all.take(i as int), table).map_values(
                |s: OperationSkillView| snapshot_of(s),
            ),
        decreases ids@.len() - i,
    {
        proof {
            assert(all.take(i + 1).drop_last() =~= all.take(i as int));
            assert(all.take(i + 1).last() == ids@[i as int]@);
        }
        match lookup::find(skills, ids[i].as_str()) {
            Some(skill) => {
                let ghost before = out@;
                let snapshot = OperationSkillSnapshot {
                    id: skill.id.clone(),
                    title: skill.title.clone(),
                    package_name: skill.package_name.clone(),
                    source: skill.source.clone(),
                    version: skill.version.clone(),
                    package_path: skill.package_path.clone(),
                    description: skill.description.clone(),
                    instructions: skill.instructions.clone(),
                };
                proof {
                    text::lemma_views_push(out@, snapshot);
                }
                out.push(snapshot);
                assert(text::views(out@) =~= skills_among(all.take(i + 1), table).map_values(
                    |s: OperationSkillView| snapshot_of(s),
                ));
            },
            None => {},
        }
        i = i + 1;
    }
    assert(all.take(all.len() as int) =~= all);
    out
}

/// The versions that the package of an AI employee is made of: its own and
/// those of its skills.
pub open spec fn package_parts(
    product: AiEmployeeProductView,
    skills: Seq<OperationSkillView>,
) -> Seq<Seq<char>> {
    seq![product.version] + skills_of(product, skills).map_values(|s: OperationSkillView| s.version)
}

/// The versions that the package of an AI employee is made of.
fn collect_package_parts(product: &AiEmployeeProduct, skills: &Vec<OperationSkill>) -> (r: Vec<
    String,
>)
    ensures
        text::views(r@) == package_parts(product@, text::views(skills@)),
{
    let snapshots = skill_snapshots(product, skills);
    let ghost owned = skills_of(product@, text::views(skills@));
    let mut out: Vec<String> = Vec::new();
    out.push(product.version.clone());
    let mut i: usize = 0;
    assert(text::views(out@) =~= package_parts(product@, text::views(skills@)).take(1));
    while i < snapshots.len()
        invariant
            i <= snapshots@.len(),
            owned == skills_of(product@, text::views(skills@)),
            text::views(snapshots@) == snapshots_of(product@, text::views(skills@)),
            text::views(out@) == package_parts(product@, text::views(skills@)).take(i + 1),
        decreases snapshots@.len() - i,
    {
        let version = snapshots[i].version.clone();
        proof {
            let parts = package_parts(product@, text::views(skills@));
            assert(text::views(snapshots@).len() == owned.len());
            assert(text::views(snapshots@)[i as int] == snapshot_of(owned[i as int]));
            assert(parts[i + 1] == owned[i as int].version);
            assert(parts.take(i + 2) =~= parts.take(i + 1).push(parts[i + 1]));
            text::lemma_views_push(out@, version);
        }
        out.push(version);
        i = i + 1;
    }
    proof {
        let parts = package_parts(product@, text::views(skills@));
        assert(text::views(snapshots@).len() == owned.len());
        assert(parts.take(parts.len() as int) =~= parts);
    }
    out
}

/// Whether the package version of an AI employee can be counted.
pub open spec fn package_counts(
    product: AiEmployeeProductView,
    skills: Seq<OperationSkillView>,
) -> bool {
    versions::sums_fit(package_parts(product, skills))
}

/// Whether the package version of an AI employee can be counted.
pub fn can_count_package(product: &AiEmployeeProduct, skills: &Vec<OperationSkill>) -> (r: bool)
    ensures
        r == package_counts(product@, text::views(skills@)),
{
    let parts = collect_package_parts(product, skills);
    versions::sums_fit_versions(&parts)
}

/// An AI employee whose package version counts its own version and those of
/// its skills.
pub open spec fn refreshed(
    product: AiEmployeeProductView,
    skills: Seq<OperationSkillView>,
    updated_at: i64,
) -> AiEmployeeProductView {
    AiEmployeeProductView {
        package_version: versions::package_version(package_parts(product, skills)),
        updated_at,
        ..product
    }
}

/// Brings the package version of an AI employee up to date.
pub fn refresh_ai_employee_package_version(
    product: &mut AiEmployeeProduct,
    skills: &Vec<OperationSkill>,
    updated_at: i64,
)
    requires
        package_counts(old(product)@, text::views(skills@)),
    ensures
        final(product)@ == refreshed(old(product)@, text::views(skills@), updated_at),
{
    let parts = collect_package_parts(&*product, skills);
    let package_version = versions::package_version_from_versions(&parts);
    product.package_version = package_version;
    product.updated_at = updated_at;
}

/// Whether an AI employee has a skill.
pub open spec fn has_skill(product: AiEmployeeProductView, skill_id: Seq<char>) -> bool {
    product.skill_ids.contains(skill_id)
}

/// A list of AI employees in which those with a skill are up to date.
pub open spec fn refreshed_for_skill(
    products: Seq<AiEmployeeProductView>,
    skill_id: Seq<char>,
    skills: Seq<OperationSkillView>,
    updated_at: i64,
) -> Seq<AiEmployeeProductView> {
    products.map_values(
        |p: AiEmployeeProductView|
            if has_skill(p, skill_id) {
                refreshed(p, skills, updated_at)
            } else {
                p
            },
    )
}

/// Brings the package version of every AI employee with a skill up to date.
pub fn refresh_ai_employee_package_versions_for_skill(
    products: Vec<AiEmployeeProduct>,
    skill_id: &str,
    skills: &Vec<OperationSkill>,
    updated_at: i64,
) -> (r: Vec<AiEmployeeProduct>)
    requires
        forall|i: int|
            0 <= i < products@.len() && has_skill(#[trigger] products@[i]@, skill_id@)
                ==> package_counts(products@[i]@, text::views(skills@)),
    ensures
        text::views(r@) == refreshed_for_skill(
            text::views(products@),
            skill_id@,
            text::views(skills@),
            updated_at,
        ),
{
    let ghost items = products@;
    let mut out: Vec<AiEmployeeProduct> = Vec::new();
    for item in it: products
        invariant
            it.seq() == items,
            forall|i: int|
                0 <= i < items.len() && has_skill(#[trigger] items[i]@, skill_id@)
                    ==> package_counts(items[i]@, text::views(skills@)),
            out@.len() == it.index(),
            forall|k: int|
                0 <= k < it.index() ==> (#[trigger] out@[k])@ == (if has_skill(
                    items[k]@,
                    skill_id@,
                ) {
                    refreshed(items[k]@, text::views(skills@), updated_at)
                } else {
                    items[k]@
                }),
    {
        let mut product = item;
        assert(product@ == items[it.index() as int]@);
        if text::contains_text(&product.skill_ids, skill_id) {
            refresh_ai_employee_package_version(&mut product, skills, updated_at);
        }
        out.push(product);
    }
    assert(text::views(out@) =~= refreshed_for_skill(
        text::views(items),
        skill_id@,
        text::views(skills@),
        updated_at,
    ));
    out
}

/// Whether the package version of every AI employee can be counted.
pub open spec fn every_package_counts(
    products: Seq<AiEmployeeProductView>,
    skills: Seq<OperationSkillView>,
) -> bool {
    forall|i: int| 0 <= i < products.len() ==> package_counts(#[trigger] products[i], skills)
}

/// Brings the package version of every AI employee up to date, without a change
/// to when it was updated, where all of them can be counted.
pub fn refresh_every_package(products: Vec<AiEmployeeProduct>, skills: &Vec<OperationSkill>) -> (r:
    Option<Vec<AiEmployeeProduct>>)
    ensures
        r is Some <==> every_package_counts(text::views(products@), text::views(skills@)),
        r matches Some(list) ==> text::views(list@) == text::views(products@).map_values(
            |p: AiEmployeeProductView| refreshed(p, text::views(skills@), p.updated_at),
        ),
{
    let ghost items = products@;
    let ghost table = text::views(skills@);
    let mut out: Vec<AiEmployeeProduct> = Vec::new();
    let mut counted = true;
    for item in it: products
        invariant
            it.seq() == items,
            table == text::views(skills@),
            counted <==> forall|k: int|
                0 <= k < it.index() ==> package_counts((#[trigger] items[k])@, table),
            counted ==> out@.len() == it.index(),
            counted ==> forall|k: int|
                0 <= k < it.index() ==> (#[trigger] out@[k])@ == refreshed(
                    items[k]@,
                    table,
                    items[k]@.updated_at,
                ),
    {
        let mut product = item;
        assert(product@ == items[it.index() as int]@);
        if counted {
            if can_count_package(&product, skills) {
                let updated_at = product.updated_at;
                refresh_ai_employee_package_version(&mut product, skills, updated_at);
                out.push(product);
            } else {
                counted = false;
            }
        }
    }
    proof {
        let all = text::views(items);
        assert(counted <==> every_package_counts(all, table)) by {
            if counted {
                assert forall|i: int| 0 <= i < all.len() implies package_counts(
                    #[trigger] all[i],
                    table,
                ) by {
                    assert(package_counts(items[i]@, table));
                }
            }
            if every_package_counts(all, table) {
                assert forall|k: int| 0 <= k < items.len() implies package_counts(
                    (#[trigger] items[k])@,
                    table,
                ) by {
                    assert(package_counts(all[k], table));
                }
            }
        }
    }
    if counted {
        assert(text::views(out@) =~= text::views(items).map_values(
            |p: AiEmployeeProductView| refreshed(p, table, p.updated_at),
        ));
        Some(out)
    } else {
        None
    }
}

/// What is wrong with a list of skills, if anything: the first one that is
/// missing or not active.
pub open spec fn skill_flaw(
    skill_ids: Seq<Seq<char>>,
    skills: Seq<OperationSkillView>,
) -> Option<rejection::RejectionView>
    decreases skill_ids.len(),
{
    if skill_ids.len() == 0 {
        None
    } else {
        match skill_with(skills, skill_ids[0]) {
            None => Some(
                rejection::refusal(rejection::BAD_REQUEST, "Skill 不存在："@ + skill_ids[0]),
            ),
            Some(skill) => if skill.status != "active"@ {
                Some(rejection::refusal(rejection::BAD_REQUEST, "Skill 已停用："@ + skill.title))
            } else {
                skill_flaw(skill_ids.skip(1), skills)
            },
        }
    }
}

/// Looks for a skill that is missing or not active.
pub fn validate_active_skills(skill_ids: &Vec<String>, skills: &Vec<OperationSkill>) -> (r: Option<
    Rejection,
>)
    ensures
        text::opt_view(r) == skill_flaw(text::views(skill_ids@), text::views(skills@)),
{
    let ghost all = text::views(skill_ids@);
    let ghost table = text::views(skills@);
    let mut i: usize = 0;
    assert(all.skip(0) =~= all);
    while i < skill_ids.len()
        invariant
            i <= skill_ids@.len(),
            all == text::views(skill_ids@),
            table == text::views(skills@),
            skill_flaw(all, table) == skill_flaw(all.skip(i as int), table),
        decreases skill_ids@.len() - i,
    {
        assert(all.skip(i as int)[0] == skill_ids@[i as int]@);
        match lookup::find(skills, skill_ids[i].as_str()) {
            None => {
                return Some(
                    refuse_with(
                        rejection::BAD_REQUEST,
                        text::join2("Skill 不存在：", skill_ids[i].as_str()),
                    ),
                );
            },
            Some(skill) => {
                if !text::same(skill.status.as_str(), "active") {
                    return Some(
                        refuse_with(
                            rejection::BAD_REQUEST,
                            text::join2("Skill 已停用：", skill.title.as_str()),
                        ),
                    );
                }
            },
        }
        assert(all.skip(i as int).skip(1) =~= all.skip(i + 1));
        i = i + 1;
    }
    None
}

/// A text, or another where nothing but white space is in it.
pub open spec fn trimmed_or(s: Seq<char>, other: Seq<char>) -> Seq<char> {
    if text::blank(s) {
        other
    } else {
        text::trimmed(s)
    }
}

/// A trimmed text, or another where nothing is left of it.
fn trim_or(s: &str, other: &str) -> (r: String)
    ensures
        r@ == trimmed_or(s@, other@),
{
    if text::is_blank(s) {
        other.to_string()
    } else {
        text::trim_owned(s)
    }
}

/// Whether a text is a billing cycle.
pub open spec fn is_billing_cycle(s: Seq<char>) -> bool {
    s == "month"@ || s == "year"@ || s == "one_time"@
}

/// What is wrong with a request to save an AI employee by itself, if anything.
pub open spec fn product_request_flaw(request: CreateAiEmployeeProductRequestView) -> Option<
    rejection::RejectionView,
> {
    if text::blank(request.title) || request.price_cents < 0 {
        Some(rejection::refusal(rejection::BAD_REQUEST, "AI 员工 title 或价格无效"@))
    } else if !is_billing_cycle(request.billing_cycle) {
        Some(rejection::refusal(rejection::BAD_REQUEST, "计费周期无效"@))
    } else {
        None
    }
}

/// Looks for what is wrong with a request to save an AI employee.
fn check_product_request(request: &CreateAiEmployeeProductRequest) -> (r: Option<Rejection>)
    ensures
        text::opt_view(r) == product_request_flaw(request@),
{
    if text::is_blank(request.title.as_str()) || request.price_cents < 0 {
        return Some(refuse(rejection::BAD_REQUEST, "AI 员工 title 或价格无效"));
    }
    let cycle = request.billing_cycle.as_str();
    if !(text::same(cycle, "month") || text::same(cycle, "year") || text::same(cycle, "one_time")) {
        return Some(refuse(rejection::BAD_REQUEST, "计费周期无效"));
    }
    None
}

/// An AI employee as a request leaves it, before its package is counted. One
/// that was there keeps its status, its picture and when it was made, and its
/// version goes up; a new one is active and has the first version.
pub open spec fn drafted(
    request: CreateAiEmployeeProductRequestView,
    id: Seq<char>,
    existing: Option<AiEmployeeProductView>,
    now: i64,
) -> AiEmployeeProductView {
    AiEmployeeProductView {
        id,
        title: text::trimmed(request.title),
        description: text::trimmed(request.description),
        category: trimmed_or(request.category, "通用"@),
        price_cents: request.price_cents,
        billing_cycle: request.billing_cycle,
        version: match existing {
            Some(product) => versions::next_version(product.version),
            None => "1.0.0"@,
        },
        package_version: match existing {
            Some(product) => product.package_version,
            None => "1.0.0"@,
        },
        skill_ids: sorting::sorted_set(request.skill_ids),
        system_prompt: text::trimmed(request.system_prompt),
        allow_network: request.allow_network,
        allowed_tools: request.allowed_tools,
        application_ids: request.application_ids,
        avatar_url: match existing {
            Some(product) => product.avatar_url,
            None => None,
        },
        status: match existing {
            Some(product) => product.status,
            None => "active"@,
        },
        created_at: match existing {
            Some(product) => product.created_at,
            None => now,
        },
        updated_at: now,
    }
}

/// The identifier that a request names, or a given one where it names none.
pub open spec fn requested_id(request: CreateAiEmployeeProductRequestView, new_id: Seq<char>) -> Seq<
    char,
> {
    trimmed_or(request.id, new_id)
}

/// What a request to save an AI employee comes to. `new_id` is the identifier
/// of one that the request does not name.
pub open spec fn saved_product_outcome(
    request: CreateAiEmployeeProductRequestView,
    new_id: Seq<char>,
    products: Seq<AiEmployeeProductView>,
    skills: Seq<OperationSkillView>,
    now: i64,
) -> Result<AiEmployeeProductView, rejection::RejectionView> {
    let id = requested_id(request, new_id);
    let draft = drafted(request, id, product_with(products, id), now);
    match product_request_flaw(request) {
        Some(flaw) => Err(flaw),
        None => match skill_flaw(draft.skill_ids, skills) {
            Some(flaw) => Err(flaw),
            None => Ok(refreshed(draft, skills, now)),
        },
    }
}

/// Whether the versions that a request to save an AI employee leads to can be
/// counted.
pub open spec fn product_versions_count(
    request: CreateAiEmployeeProductRequestView,
    new_id: Seq<char>,
    products: Seq<AiEmployeeProductView>,
    skills: Seq<OperationSkillView>,
) -> bool {
    let id = requested_id(request, new_id);
    let existing = product_with(products, id);
    let draft = drafted(request, id, existing, 0);
    product_request_flaw(request) is None ==> {
        &&& existing matches Some(product) ==> versions::can_advance(product.version)
        &&& skill_flaw(draft.skill_ids, skills) is None ==> package_counts(draft, skills)
    }
}

/// Drafts the AI employee that a request asks for.
fn draft_product(
    request: &CreateAiEmployeeProductRequest,
    id: String,
    existing: Option<&AiEmployeeProduct>,
    now: i64,
) -> (r: AiEmployeeProduct)
    requires
        existing matches Some(product) ==> versions::can_advance(product@.version),
    ensures
        r@ == drafted(
            request@,
            id@,
            match existing {
                Some(product) => Some(product@),
                None => None,
            },
            now,
        ),
{
    let title = text::trim_owned(request.title.as_str());
    let description = text::trim_owned(request.description.as_str());
    let category = trim_or(request.category.as_str(), "通用");
    let skill_ids = sorting::sort_unique(duplicate_all(&request.skill_ids));
    let system_prompt = text::trim_owned(request.system_prompt.as_str());
    let allowed_tools = duplicate_all(&request.allowed_tools);
    let application_ids = duplicate_all(&request.application_ids);
    match existing {
        Some(product) => AiEmployeeProduct {
            id,
            title,
            description,
            category,
            price_cents: request.price_cents,
            billing_cycle: request.billing_cycle.clone(),
            version: versions::next_patch_version(product.version.as_str()),
            package_version: product.package_version.clone(),
            skill_ids,
            system_prompt,
            allow_network: request.allow_network,
            allowed_tools,
            application_ids,
            avatar_url: duplicate_opt(&product.avatar_url),
            status: product.status.clone(),
            created_at: product.created_at,
            updated_at: now,
        },
        None => AiEmployeeProduct {
            id,
            title,
            description,
            category,
            price_cents: request.price_cents,
            billing_cycle: request.billing_cycle.clone(),
            version: versions::default_template_version(),
            package_version: "1.0.0".to_string(),
            skill_ids,
            system_prompt,
            allow_network: request.allow_network,
            allowed_tools,
            application_ids,
            avatar_url: None,
            status: "active".to_string(),
            created_at: now,
            updated_at: now,
        },
    }
}

/// Saves the AI employee that a request asks for. `new_id` is the identifier
/// of one that the request does not name.
pub fn save_ai_employee_product(
    request: &CreateAiEmployeeProductRequest,
    new_id: &str,
    products: &Vec<AiEmployeeProduct>,
    skills: &Vec<OperationSkill>,
    now: i64,
) -> (r: Result<AiEmployeeProduct, Rejection>)
    requires
        product_versions_count(
            request@,
            new_id@,
            text::views(products@),
            text::views(skills@),
        ),
    ensures
        rejection::outcome(r) == saved_product_outcome(
            request@,
            new_id@,
            text::views(products@),
            text::views(skills@),
            now,
        ),
{
    let id = trim_or(request.id.as_str(), new_id);
    match check_product_request(request) {
        Some(flaw) => {
            return Err(flaw);
        },
        None => {},
    }
    let existing = lookup::find(products, id.as_str());
    let mut draft = draft_product(request, id, existing, now);
    match validate_active_skills(&draft.skill_ids, skills) {
        Some(flaw) => {
            return Err(flaw);
        },
        None => {},
    }
    proof {
        let named = requested_id(request@, new_id@);
        let stored = product_with(text::views(products@), named);
        let early = drafted(request@, named, stored, 0);
        assert(package_parts(early, text::views(skills@)) == package_parts(
            draft@,
            text::views(skills@),
        ));
    }
    refresh_ai_employee_package_version(&mut draft, skills, now);
    Ok(draft)
}

/// Whether the versions that a request to save an AI employee leads to can be
/// counted.
pub fn can_count_product_versions(
    request: &CreateAiEmployeeProductRequest,
    new_id: &str,
    products: &Vec<AiEmployeeProduct>,
    skills: &Vec<OperationSkill>,
) -> (r: bool)
    ensures
        r == product_versions_count(
            request@,
            new_id@,
            text::views(products@),
            text::views(skills@),
        ),
{
    if check_product_request(request).is_some() {
        return true;
    }
    let id = trim_or(request.id.as_str(), new_id);
    let existing = lookup::find(products, id.as_str());
    match existing {
        Some(product) => {
            if !versions::can_advance_version(product.version.as_str()) {
                return false;
            }
        },
        None => {},
    }
    let draft = draft_product(request, id, existing, 0);
    if validate_active_skills(&draft.skill_ids, skills).is_some() {
        return true;
    }
    can_count_package(&draft, skills)
}

/// Saves the AI employee that a request asks for, at a given second. `new_id` is
/// the identifier of one that the request does not name. Gives nothing exactly
/// where a version cannot be counted any further.
pub fn create_ai_employee_product_at(
    request: &CreateAiEmployeeProductRequest,
    new_id: &str,
    products: &Vec<AiEmployeeProduct>,
    skills: &Vec<OperationSkill>,
    now: i64,
) -> (r: Option<Result<AiEmployeeProduct, Rejection>>)
    ensures
        r is None <==> !product_versions_count(
            request@,
            new_id@,
            text::views(products@),
            text::views(skills@),
        ),
        r matches Some(done) ==> rejection::outcome(done) == saved_product_outcome(
            request@,
            new_id@,
            text::views(products@),
            text::views(skills@),
            now,
        ),
{
    if !can_count_product_versions(request, new_id, products, skills) {
        return None;
    }
    Some(save_ai_employee_product(request, new_id, products, skills, now))
}

/// Saves the AI employee that a request asks for, now, with a new identifier
/// where the request names none. Gives nothing where a version cannot be
/// counted any further.
pub fn create_ai_employee_product(
    request: &CreateAiEmployeeProductRequest,
    products: &Vec<AiEmployeeProduct>,
    skills: &Vec<OperationSkill>,
) -> (r: Option<Result<AiEmployeeProduct, Rejection>>)
    ensures
        exists|new_id: Seq<char>, now: i64| #[trigger]
            ids::is_resource_id_at(new_id, "ai-employee"@, now) && (match r {
                Some(done) => {
                    &&& product_versions_count(
                        request@,
                        new_id,
                        text::views(products@),
                        text::views(skills@),
                    )
                    &&& rejection::outcome(done) == saved_product_outcome(
                        request@,
                        new_id,
                        text::views(products@),
                        text::views(skills@),
                        now,
                    )
                },
                None => !product_versions_count(
                    request@,
                    new_id,
                    text::views(products@),
                    text::views(skills@),
                ),
            }),
{
    let new_id = ids::generated_resource_id("ai-employee");
    let now = clock::now();
    assert(ids::is_resource_id_at(new_id@, "ai-employee"@, now));
    create_ai_employee_product_at(request, new_id.as_str(), products, skills, now)
}

/// Whether a text is a status that can be asked for.
pub open spec fn is_switch(status: Seq<char>) -> bool {
    status == "active"@ || status == "inactive"@
}

/// Whether a text is a status that can be asked for.
pub fn valid_switch(status: &str) -> (r: bool)
    ensures
        r == is_switch(status@),
{
    text::same(status, "active") || text::same(status, "inactive")
}

/// What a request for another status of an AI employee comes to.
pub open spec fn product_status_outcome(
    request: StatusRequestView,
    employee_id: Seq<char>,
    products: Seq<AiEmployeeProductView>,
    skills: Seq<OperationSkillView>,
    now: i64,
) -> Result<AiEmployeeProductView, rejection::RejectionView> {
    if !is_switch(request.status) {
        Err(rejection::refusal(rejection::BAD_REQUEST, "AI 员工状态无效"@))
    } else {
        match product_with(products, employee_id) {
            None => Err(rejection::refusal(rejection::NOT_FOUND, "AI 员工不存在"@)),
            Some(product) => Ok(refreshed(switched(product, request.status, now), skills, now)),
        }
    }
}

/// An AI employee with another status and the next version.
pub open spec fn switched(product: AiEmployeeProductView, status: Seq<char>, now: i64) -> AiEmployeeProductView {
    AiEmployeeProductView {
        status,
        version: versions::next_version(product.version),
        updated_at: now,
        ..product
    }
}

/// Whether the versions that another status of an AI employee leads to can be
/// counted.
pub open spec fn switched_counts(
    employee_id: Seq<char>,
    products: Seq<AiEmployeeProductView>,
    skills: Seq<OperationSkillView>,
) -> bool {
    product_with(products, employee_id) matches Some(product) ==> {
        &&& versions::can_advance(product.version)
        &&& package_counts(switched(product, product.status, 0), skills)
    }
}

/// Gives an AI employee another status and the next version.
pub fn update_ai_employee_product_status(
    request: &StatusRequest,
    employee_id: &str,
    products: &Vec<AiEmployeeProduct>,
    skills: &Vec<OperationSkill>,
    now: i64,
) -> (r: Result<AiEmployeeProduct, Rejection>)
    requires
        is_switch(request@.status) ==> switched_counts(
            employee_id@,
            text::views(products@),
            text::views(skills@),
        ),
    ensures
        rejection::outcome(r) == product_status_outcome(
            request@,
            employee_id@,
            text::views(products@),
            text::views(skills@),
            now,
        ),
{
    if !valid_switch(request.status.as_str()) {
        return Err(refuse(rejection::BAD_REQUEST, "AI 员工状态无效"));
    }
    match lookup::find(products, employee_id) {
        None => Err(refuse(rejection::NOT_FOUND, "AI 员工不存在")),
        Some(existing) => {
            let mut product = existing.duplicate();
            product.version = versions::next_patch_version(existing.version.as_str());
            product.status = request.status.clone();
            product.updated_at = now;
            proof {
                let table = text::views(skills@);
                assert(product@ =~= switched(existing@, request@.status, now));
                assert(package_parts(switched(existing@, existing@.status, 0), table)
                    == package_parts(product@, table));
            }
            refresh_ai_employee_package_version(&mut product, skills, now);
            Ok(product)
        },
    }
}

/// Whether the versions that another status of an AI employee leads to can be
/// counted.
pub fn can_count_switched(
    employee_id: &str,
    products: &Vec<AiEmployeeProduct>,
    skills: &Vec<OperationSkill>,
) -> (r: bool)
    ensures
        r == switched_counts(employee_id@, text::views(products@), text::views(skills@)),
{
    match lookup::find(products, employee_id) {
        None => true,
        Some(existing) => {
            if !versions::can_advance_version(existing.version.as_str()) {
                return false;
            }
            let mut product = existing.duplicate();
            product.version = versions::next_patch_version(existing.version.as_str());
            product.updated_at = 0;
            assert(product@ =~= switched(existing@, existing@.status, 0));
            can_count_package(&product, skills)
        },
    }
}

/// The address at which the picture of an AI employee is read.
pub open spec fn avatar_address(id: Seq<char>) -> Seq<char> {
    "/api/ai-employees/"@ + id + "/avatar"@
}

/// What the public market shows of an AI employee.
pub open spec fn shown_in_market(product: AiEmployeeProductView) -> AiEmployeeMarketProductView {
    AiEmployeeMarketProductView {
        id: product.id,
        title: product.title,
        description: product.description,
        category: product.category,
        price_cents: product.price_cents,
        billing_cycle: product.billing_cycle,
        version: product.package_version,
        avatar_url: match product.avatar_url {
            Some(_) => Some(avatar_address(product.id)),
            None => None,
        },
    }
}

/// Shows an AI employee in the public market.
fn show_in_market(product: &AiEmployeeProduct) -> (r: AiEmployeeMarketProduct)
    ensures
        r@ == shown_in_market(product@),
{
    AiEmployeeMarketProduct {
        id: product.id.clone(),
        title: product.title.clone(),
        description: product.description.clone(),
        category: product.category.clone(),
        price_cents: product.price_cents,
        billing_cycle: product.billing_cycle.clone(),
        version: product.package_version.clone(),
        avatar_url: match &product.avatar_url {
            Some(_) => Some(text::join3("/api/ai-employees/", product.id.as_str(), "/avatar")),
            None => None,
        },
    }
}

/// Whether an AI employee is on sale.
pub open spec fn on_sale(product: AiEmployeeProductView) -> bool {
    product.status == "active"@
}

/// The AI employee with an identifier, where it is on sale.
pub open spec fn product_on_sale(products: Seq<AiEmployeeProductView>, id: Seq<char>) -> Option<
    AiEmployeeProductView,
> {
    match product_with(products, id) {
        Some(product) => if on_sale(product) {
            Some(product)
        } else {
            None
        },
        None => None,
    }
}

/// The AI employee with an identifier, where it is on sale.
pub fn find_on_sale<'a>(products: &'a Vec<AiEmployeeProduct>, id: &str) -> (r: Option<
    &'a AiEmployeeProduct,
>)
    ensures
        match r {
            Some(product) => product_on_sale(text::views(products@), id@) == Some(product@),
            None => product_on_sale(text::views(products@), id@) is None,
        },
{
    match lookup::find(products, id) {
        Some(product) => if text::same(product.status.as_str(), "active") {
            Some(product)
        } else {
            None
        },
        None => None,
    }
}

impl Ranked for AiEmployeeProduct {
    open spec fn rank_le(a: AiEmployeeProductView, b: AiEmployeeProductView) -> bool {
        a.updated_at >= b.updated_at
    }

    proof fn rank_total(a: AiEmployeeProductView, b: AiEmployeeProductView) {
    }

    proof fn rank_transitive(
        a: AiEmployeeProductView,
        b: AiEmployeeProductView,
        c: AiEmployeeProductView,
    ) {
    }

    fn may_precede(&self, other: &Self) -> (r: bool) {
        self.updated_at >= other.updated_at
    }
}

/// The AI employees that are on sale, the one that was changed last first.
pub open spec fn all_on_sale(products: Seq<AiEmployeeProductView>) -> Seq<AiEmployeeProductView> {
    sorting::sorted_by_rank::<AiEmployeeProduct>(
        products.filter(|p: AiEmployeeProductView| on_sale(p)),
    )
}

/// The AI employees that are on sale, as the public market shows them: the one
/// that was changed last first.
pub open spec fn market_of(products: Seq<AiEmployeeProductView>) -> Seq<AiEmployeeMarketProductView> {
    all_on_sale(products).map_values(|p: AiEmployeeProductView| shown_in_market(p))
}

/// The AI employees that are on sale, the one that was changed last first.
fn find_all_on_sale(products: &Vec<AiEmployeeProduct>) -> (r: Vec<AiEmployeeProduct>)
    ensures
        text::views(r@) == all_on_sale(text::views(products@)),
{
    let ghost all = text::views(products@);
    let ghost keep = |p: AiEmployeeProductView| on_sale(p);
    let mut out: Vec<AiEmployeeProduct> = Vec::new();
    let mut i: usize = 0;
    assert(all.take(0).filter(keep) =~= Seq::<AiEmployeeProductView>::empty());
    assert(text::views(out@) =~= all.take(0).filter(keep));
    while i < products.len()
        invariant
            i <= products@.len(),
            all == text::views(products@),
            keep == (|p: AiEmployeeProductView| on_sale(p)),
            text::views(out@) == all.take(i as int).filter(keep),
        decreases products@.len() - i,
    {
        let product = &products[i];
        proof {
            assert(all.take(i + 1) =~= all.take(i as int).push(product@));
            all.take(i as int).lemma_filter_push(product@, keep);
        }
        if text::same(product.status.as_str(), "active") {
            let kept = product.duplicate();
            proof {
                assert(keep(product@));
                text::lemma_views_push(out@, kept);
            }
            out.push(kept);
        } else {
            assert(!keep(product@));
        }
        i = i + 1;
    }
    assert(all.take(all.len() as int) =~= all);
    sorting::stable_sort(out)
}

/// The AI employees that are on sale, as the public market shows them.
pub fn list_public_ai_employee_products(products: &Vec<AiEmployeeProduct>) -> (r: Vec<
    AiEmployeeMarketProduct,
>)
    ensures
        text::views(r@) == market_of(text::views(products@)),
{
    let listed = find_all_on_sale(products);
    let mut out: Vec<AiEmployeeMarketProduct> = Vec::new();
    let mut i: usize = 0;
    while i < listed.len()
        invariant
            i <= listed@.len(),
            out@.len() == i,
            forall|k: int| 0 <= k < i ==> (#[trigger] out@[k])@ == shown_in_market(listed@[k]@),
        decreases listed@.len() - i,
    {
        out.push(show_in_market(&listed[i]));
        i = i + 1;
    }
    assert(text::views(out@) =~= market_of(text::views(products@)));
    out
}

/// The public market shows every AI employee that is on sale, and no other.
pub proof fn law_market_shows_what_is_on_sale(
    products: Seq<AiEmployeeProductView>,
    shown: AiEmployeeMarketProductView,
)
    ensures
        market_of(products).contains(shown) <==> exists|i: int|
            0 <= i < products.len() && on_sale(#[trigger] products[i]) && shown_in_market(
                products[i],
            ) == shown,
{
    let keep = |p: AiEmployeeProductView| on_sale(p);
    let kept = products.filter(keep);
    let listed = all_on_sale(products);
    sorting::lemma_sorted_by_rank::<AiEmployeeProduct>(kept);
    sorting::lemma_same_members(listed, kept);
    broadcast use vstd::seq_lib::group_filter_ensures;

    if market_of(products).contains(shown) {
        let m = market_of(products).index_of(shown);
        assert(shown_in_market(listed[m]) == shown);
        assert(listed.contains(listed[m]));
        assert(kept.contains(listed[m]));
        let k = kept.index_of(listed[m]);
        products.lemma_filter_pred(keep, k);
        products.lemma_filter_contains_rev(keep, kept[k]);
        let i = products.index_of(kept[k]);
        assert(on_sale(products[i]));
    }
    if exists|i: int|
        0 <= i < products.len() && on_sale(#[trigger] products[i]) && shown_in_market(products[i])
            == shown {
        let i = choose|i: int|
            0 <= i < products.len() && on_sale(#[trigger] products[i]) && shown_in_market(
                products[i],
            ) == shown;
        products.lemma_filter_contains(keep, i);
        assert(listed.contains(products[i]));
        let k = listed.index_of(products[i]);
        assert(market_of(products)[k] == shown);
    }
}

/// The public market has one entry for each AI employee that is on sale, and the
/// one that was changed last comes first.
pub proof fn law_market_is_newest_first(products: Seq<AiEmployeeProductView>)
    ensures
        market_of(products).len() == products.filter(
            |p: AiEmployeeProductView| on_sale(p),
        ).len(),
        forall|i: int|
            0 <= i < market_of(products).len() ==> #[trigger] market_of(products)[i]
                == shown_in_market(all_on_sale(products)[i]),
        forall|i: int, j: int|
            0 <= i < j < all_on_sale(products).len() ==> (#[trigger] all_on_sale(
                products,
            )[i]).updated_at >= (#[trigger] all_on_sale(products)[j]).updated_at,
{
    sorting::lemma_sorted_by_rank::<AiEmployeeProduct>(
        products.filter(|p: AiEmployeeProductView| on_sale(p)),
    );
}

/// What a request to save a skill comes to. A skill that is there keeps its
/// package, its status and when it was made, and its version goes up.
pub open spec fn saved_skill_outcome(
    request: SaveOperationSkillRequestView,
    skills: Seq<OperationSkillView>,
    now: i64,
) -> Result<OperationSkillView, rejection::RejectionView> {
    if text::blank(request.id) {
        Err(rejection::refusal(rejection::BAD_REQUEST, "Skill 必须通过 ZIP 导入创建"@))
    } else if text::blank(request.title) || text::blank(request.instructions) {
        Err(rejection::refusal(rejection::BAD_REQUEST, "Skill 名称和执行说明不能为空"@))
    } else {
        match skill_with(skills, text::trimmed(request.id)) {
            None => Err(rejection::refusal(rejection::NOT_FOUND, "Skill 不存在"@)),
            Some(skill) => Ok(
                OperationSkillView {
                    title: text::trimmed(request.title),
                    source: trimmed_or(request.source, "operation-center"@),
                    version: versions::next_version(skill.version),
                    description: text::trimmed(request.description),
                    instructions: text::trimmed(request.instructions),
                    updated_at: now,
                    ..skill
                },
            ),
        }
    }
}

/// Saves what a request says of a skill.
pub fn save_operation_skill(
    request: &SaveOperationSkillRequest,
    skills: &Vec<OperationSkill>,
    now: i64,
) -> (r: Result<OperationSkill, Rejection>)
    requires
        !text::blank(request@.id) && !text::blank(request@.title) && !text::blank(
            request@.instructions,
        ) ==> (skill_with(text::views(skills@), text::trimmed(request@.id)) matches Some(skill)
            ==> versions::can_advance(skill.version)),
    ensures
        rejection::outcome(r) == saved_skill_outcome(request@, text::views(skills@), now),
{
    let id = text::trim_owned(request.id.as_str());
    if text::is_blank(request.id.as_str()) {
        return Err(refuse(rejection::BAD_REQUEST, "Skill 必须通过 ZIP 导入创建"));
    }
    if text::is_blank(request.title.as_str()) || text::is_blank(request.instructions.as_str()) {
        return Err(refuse(rejection::BAD_REQUEST, "Skill 名称和执行说明不能为空"));
    }
    match lookup::find(skills, id.as_str()) {
        None => Err(refuse(rejection::NOT_FOUND, "Skill 不存在")),
        Some(existing) => {
            let mut skill = existing.duplicate();
            skill.title = text::trim_owned(request.title.as_str());
            skill.source = trim_or(request.source.as_str(), "operation-center");
            skill.version = versions::next_patch_version(existing.version.as_str());
            skill.description = text::trim_owned(request.description.as_str());
            skill.instructions = text::trim_owned(request.instructions.as_str());
            skill.updated_at = now;
            Ok(skill)
        },
    }
}

/// What a request for another status of a skill comes to.
pub open spec fn skill_status_outcome(
    request: StatusRequestView,
    skill_id: Seq<char>,
    skills: Seq<OperationSkillView>,
    now: i64,
) -> Result<OperationSkillView, rejection::RejectionView> {
    if !is_switch(request.status) {
        Err(rejection::refusal(rejection::BAD_REQUEST, "Skill 状态无效"@))
    } else {
        match skill_with(skills, skill_id) {
            None => Err(rejection::refusal(rejection::NOT_FOUND, "Skill 不存在"@)),
            Some(skill) => Ok(
                OperationSkillView {
                    status: request.status,
                    version: versions::next_version(skill.version),
                    updated_at: now,
                    ..skill
                },
            ),
        }
    }
}

/// Gives a skill another status and the next version.
pub fn update_operation_skill_status(
    request: &StatusRequest,
    skill_id: &str,
    skills: &Vec<OperationSkill>,
    now: i64,
) -> (r: Result<OperationSkill, Rejection>)
    requires
        is_switch(request@.status) ==> (skill_with(text::views(skills@), skill_id@) matches Some(
            skill,
        ) ==> versions::can_advance(skill.version)),
    ensures
        rejection::outcome(r) == skill_status_outcome(
            request@,
            skill_id@,
            text::views(skills@),
            now,
        ),
{
    if !valid_switch(request.status.as_str()) {
        return Err(refuse(rejection::BAD_REQUEST, "Skill 状态无效"));
    }
    match lookup::find(skills, skill_id) {
        None => Err(refuse(rejection::NOT_FOUND, "Skill 不存在")),
        Some(existing) => {
            let mut skill = existing.duplicate();
            skill.version = versions::next_patch_version(existing.version.as_str());
            skill.status = request.status.clone();
            skill.updated_at = now;
            Ok(skill)
        },
    }
}

/// Gives a skill the instructions and the path of a new package and the next
/// version.
pub fn replace_skill_package(
    existing: &OperationSkill,
    instructions: String,
    package_path: String,
    now: i64,
) -> (r: OperationSkill)
    requires
        versions::can_advance(existing@.version),
    ensures
        r@ == (OperationSkillView {
            version: versions::next_version(existing@.version),
            instructions: instructions@,
            package_path: package_path@,
            updated_at: now,
            ..existing@
        }),
{
    let mut skill = existing.duplicate();
    skill.version = versions::next_patch_version(existing.version.as_str());
    skill.instructions = instructions;
    skill.package_path = package_path;
    skill.updated_at = now;
    skill
}

/// A skill that was saved or switched is ahead of what it was.
pub proof fn law_changed_skill_is_ahead(
    request: SaveOperationSkillRequestView,
    switch: StatusRequestView,
    skills: Seq<OperationSkillView>,
    now: i64,
)
    requires
        skill_with(skills, text::trimmed(request.id)) matches Some(skill) ==> versions::can_advance(
            skill.version,
        ),
    ensures
        saved_skill_outcome(request, skills, now) matches Ok(saved) ==> versions::ahead(
            versions::parts_of(saved.version),
            versions::parts_of(skill_with(skills, text::trimmed(request.id))->Some_0.version),
        ),
        skill_status_outcome(switch, text::trimmed(request.id), skills, now) matches Ok(saved)
            ==> versions::ahead(
            versions::parts_of(saved.version),
            versions::parts_of(skill_with(skills, text::trimmed(request.id))->Some_0.version),
        ),
{
    match skill_with(skills, text::trimmed(request.id)) {
        Some(skill) => {
            versions::law_next_version_is_ahead(skill.version);
        },
        None => {},
    }
}

/// Skills with another one in the place of the one with its identifier.
pub open spec fn with_skill(
    skills: Seq<OperationSkillView>,
    skill: OperationSkillView,
) -> Seq<OperationSkillView> {
    skills.map_values(
        |s: OperationSkillView|
            if s.id == skill.id {
                skill
            } else {
                s
            },
    )
}

/// Whether the package version of an AI employee counts its own version and
/// those of its skills.
pub open spec fn is_up_to_date(
    product: AiEmployeeProductView,
    skills: Seq<OperationSkillView>,
) -> bool {
    product.package_version == versions::package_version(package_parts(product, skills))
}

proof fn lemma_with_skill(
    skills: Seq<OperationSkillView>,
    skill: OperationSkillView,
    id: Seq<char>,
)
    ensures
        skill_with(with_skill(skills, skill), id) == (if id == skill.id && skill_with(
            skills,
            id,
        ) is Some {
            Some(skill)
        } else {
            skill_with(skills, id)
        }),
    decreases skills.len(),
{
    if skills.len() > 0 {
        assert(with_skill(skills, skill).skip(1) =~= with_skill(skills.skip(1), skill));
        lemma_with_skill(skills.skip(1), skill, id);
    }
}

/// Among distinct identifiers, a skill that was changed stands where it stood.
proof fn lemma_among_with_skill(
    ids: Seq<Seq<char>>,
    skills: Seq<OperationSkillView>,
    skill: OperationSkillView,
) -> (at: int)
    requires
        sorting::strictly_sorted(ids),
        skill_with(skills, skill.id) is Some,
    ensures
        ({
            let before = skills_among(ids, skills);
            let after = skills_among(ids, with_skill(skills, skill));
            if ids.contains(skill.id) {
                &&& 0 <= at < before.len()
                &&& Some(before[at]) == skill_with(skills, skill.id)
                &&& after == before.update(at, skill)
            } else {
                after == before
            }
        }),
    decreases ids.len(),
{
    if ids.len() == 0 {
        0
    } else {
        let init = ids.drop_last();
        let changed = with_skill(skills, skill);
        let before = skills_among(ids, skills);
        let after = skills_among(ids, changed);
        assert(sorting::strictly_sorted(init)) by {
            assert forall|i: int, j: int| 0 <= i < j < init.len() implies text::text_lt(
                #[trigger] init[i],
                #[trigger] init[j],
            ) by {
                assert(text::text_lt(ids[i], ids[j]));
            }
        }
        lemma_with_skill(skills, skill, ids.last());
        let at = lemma_among_with_skill(init, skills, skill);
        assert(ids =~= init.push(ids.last()));
        if ids.last() == skill.id {
            assert(!init.contains(skill.id)) by {
                if init.contains(skill.id) {
                    let k = init.index_of(skill.id);
                    assert(text::text_lt(ids[k], ids[ids.len() - 1]));
                }
            }
            assert(ids[ids.len() - 1] == skill.id);
            let last = skills_among(init, skills).len() as int;
            assert(after =~= before.update(last, skill));
            last
        } else {
            assert(ids.contains(skill.id) <==> init.contains(skill.id)) by {
                if ids.contains(skill.id) {
                    let k = ids.index_of(skill.id);
                    assert(init[k] == skill.id);
                }
                if init.contains(skill.id) {
                    let k = init.index_of(skill.id);
                    assert(ids[k] == skill.id);
                }
            }
            if ids.contains(skill.id) {
                assert(after =~= before.update(at, skill));
            }
            at
        }
    }
}

/// Once a skill has the next version, refreshing the packages of the AI employees
/// that have it puts the package version of each of them ahead, and every package
/// version that was up to date is up to date with the changed skill.
pub proof fn law_packages_follow_a_skill(
    products: Seq<AiEmployeeProductView>,
    skills: Seq<OperationSkillView>,
    skill: OperationSkillView,
    now: i64,
    i: int,
)
    requires
        skill_with(skills, skill.id) matches Some(before) && versions::can_advance(before.version)
            && skill.version == versions::next_version(before.version),
        0 <= i < products.len(),
        is_up_to_date(products[i], skills),
        package_counts(products[i], skills),
        package_counts(products[i], with_skill(skills, skill)),
    ensures
        ({
            let product = products[i];
            let after = with_skill(skills, skill);
            let done = refreshed_for_skill(products, skill.id, after, now)[i];
            &&& is_up_to_date(done, after)
            &&& has_skill(product, skill.id) ==> done == refreshed(product, after, now)
                && versions::ahead(
                versions::parts_of(done.package_version),
                versions::parts_of(product.package_version),
            )
            &&& !has_skill(product, skill.id) ==> done == product
        }),
{
    let product = products[i];
    let after = with_skill(skills, skill);
    let ids = sorting::sorted_set(product.skill_ids);
    sorting::lemma_sorted_set_exists(product.skill_ids);
    let at = lemma_among_with_skill(ids, skills, skill);
    let parts = package_parts(product, skills);
    let moved = package_parts(product, after);
    if has_skill(product, skill.id) {
        assert(ids.contains(skill.id));
        let owned = skills_of(product, skills);
        assert(parts[at + 1] == owned[at].version);
        assert(moved =~= parts.update(at + 1, skill.version));
        versions::law_package_follows_its_parts(parts, at + 1);
        let done = refreshed(product, after, now);
        assert(package_parts(done, after) =~= moved);
    } else {
        assert(!ids.contains(skill.id));
        assert(moved =~= parts);
    }
}

/// Saving a skill and then refreshing the packages puts the package version of
/// every AI employee that has the skill ahead.
pub proof fn law_packages_follow_a_saved_skill(
    request: SaveOperationSkillRequestView,
    products: Seq<AiEmployeeProductView>,
    skills: Seq<OperationSkillView>,
    now: i64,
    i: int,
)
    requires
        skill_with(skills, text::trimmed(request.id)) matches Some(before) ==> versions::can_advance(
            before.version,
        ),
        saved_skill_outcome(request, skills, now) matches Ok(skill) && 0 <= i < products.len()
            && has_skill(products[i], skill.id) && package_counts(
            products[i],
            with_skill(skills, skill),
        ),
        is_up_to_date(products[i], skills),
        package_counts(products[i], skills),
    ensures
        ({
            let skill = saved_skill_outcome(request, skills, now)->Ok_0;
            let after = with_skill(skills, skill);
            let done = refreshed_for_skill(products, skill.id, after, now)[i];
            &&& done == refreshed(products[i], after, now)
            &&& is_up_to_date(done, after)
            &&& versions::ahead(
                versions::parts_of(done.package_version),
                versions::parts_of(products[i].package_version),
            )
        }),
{
    lookup::lemma_found::<OperationSkill>(skills, text::trimmed(request.id));
    let skill = saved_skill_outcome(request, skills, now)->Ok_0;
    law_packages_follow_a_skill(products, skills, skill, now, i);
}

/// Switching a skill and then refreshing the packages puts the package version of
/// every AI employee that has the skill ahead.
pub proof fn law_packages_follow_a_switched_skill(
    request: StatusRequestView,
    skill_id: Seq<char>,
    products: Seq<AiEmployeeProductView>,
    skills: Seq<OperationSkillView>,
    now: i64,
    i: int,
)
    requires
        skill_with(skills, skill_id) matches Some(before) ==> versions::can_advance(before.version),
        skill_status_outcome(request, skill_id, skills, now) matches Ok(skill) && 0 <= i
            < products.len() && has_skill(products[i], skill.id) && package_counts(
            products[i],
            with_skill(skills, skill),
        ),
        is_up_to_date(products[i], skills),
        package_counts(products[i], skills),
    ensures
        ({
            let skill = skill_status_outcome(request, skill_id, skills, now)->Ok_0;
            let after = with_skill(skills, skill);
            let done = refreshed_for_skill(products, skill.id, after, now)[i];
            &&& done == refreshed(products[i], after, now)
            &&& is_up_to_date(done, after)
            &&& versions::ahead(
                versions::parts_of(done.package_version),
                versions::parts_of(products[i].package_version),
            )
        }),
{
    lookup::lemma_found::<OperationSkill>(skills, skill_id);
    let skill = skill_status_outcome(request, skill_id, skills, now)->Ok_0;
    law_packages_follow_a_skill(products, skills, skill, now, i);
}

/// The package version of an AI employee that was saved or switched is up to
/// date, and switching puts it ahead.
pub proof fn law_changed_package_is_up_to_date(
    request: CreateAiEmployeeProductRequestView,
    new_id: Seq<char>,
    switch: StatusRequestView,
    employee_id: Seq<char>,
    products: Seq<AiEmployeeProductView>,
    skills: Seq<OperationSkillView>,
    now: i64,
)
    ensures
        saved_product_outcome(request, new_id, products, skills, now) matches Ok(saved)
            ==> is_up_to_date(saved, skills),
        product_status_outcome(switch, employee_id, products, skills, now) matches Ok(saved) ==> {
            let before = product_with(products, employee_id)->Some_0;
            &&& is_up_to_date(saved, skills)
            &&& is_up_to_date(before, skills) && versions::can_advance(before.version)
                && package_counts(before, skills) && package_counts(saved, skills)
                ==> versions::ahead(
                versions::parts_of(saved.package_version),
                versions::parts_of(before.package_version),
            )
        },
{
    match saved_product_outcome(request, new_id, products, skills, now) {
        Ok(saved) => {
            lemma_refreshed_is_up_to_date(saved, skills, saved.updated_at);
        },
        Err(_) => {},
    }
    match product_status_outcome(switch, employee_id, products, skills, now) {
        Ok(saved) => {
            let before = product_with(products, employee_id)->Some_0;
            let parts = package_parts(before, skills);
            assert(package_parts(saved, skills) =~= parts.update(
                0,
                versions::next_version(before.version),
            ));
            lemma_refreshed_is_up_to_date(
                switched(before, switch.status, now),
                skills,
                now,
            );
            if versions::can_advance(before.version) && package_counts(before, skills)
                && package_counts(saved, skills) {
                versions::law_package_follows_its_parts(parts, 0);
            }
        },
        Err(_) => {},
    }
}

proof fn lemma_refreshed_is_up_to_date(
    product: AiEmployeeProductView,
    skills: Seq<OperationSkillView>,
    now: i64,
)
    ensures
        is_up_to_date(refreshed(product, skills, now), skills),
        package_parts(refreshed(product, skills, now), skills) == package_parts(product, skills),
{
    assert(package_parts(refreshed(product, skills, now), skills) =~= package_parts(
        product,
        skills,
    ));
}

/// An AI employee that was saved or switched is ahead of what it was.
pub proof fn law_changed_product_is_ahead(
    request: CreateAiEmployeeProductRequestView,
    switch: StatusRequestView,
    products: Seq<AiEmployeeProductView>,
    skills: Seq<OperationSkillView>,
    now: i64,
)
    requires
        product_with(products, text::trimmed(request.id)) matches Some(product)
            ==> versions::can_advance(product.version),
        !text::blank(request.id),
    ensures
        product_with(products, text::trimmed(request.id)) matches Some(product) ==> {
            &&& saved_product_outcome(request, request.id, products, skills, now) matches Ok(saved)
                ==> versions::ahead(
                versions::parts_of(saved.version),
                versions::parts_of(product.version),
            )
            &&& product_status_outcome(
                switch,
                text::trimmed(request.id),
                products,
                skills,
                now,
            ) matches Ok(saved) ==> versions::ahead(
                versions::parts_of(saved.version),
                versions::parts_of(product.version),
            )
        },
{
    match product_with(products, text::trimmed(request.id)) {
        Some(product) => {
            versions::law_next_version_is_ahead(product.version);
        },
        None => {},
    }
}

/// Whether a text is what is left of another without the white space around it,
/// or a third one where nothing is left.
pub open spec fn is_trimmed_or(s: Seq<char>, full: Seq<char>, other: Seq<char>) -> bool {
    if text::trimmed(full).len() > 0 {
        s == text::trimmed(full)
    } else {
        s == other
    }
}

/// An AI employee that was saved, new or not, is what the request says: it has
/// the title, the description, the category, the price, the billing cycle, the
/// skills, the instructions, the network permission, the allowed tools and the
/// applications of the request, under the identifier that it names.
pub proof fn law_saved_product_is_as_requested(
    request: CreateAiEmployeeProductRequestView,
    new_id: Seq<char>,
    products: Seq<AiEmployeeProductView>,
    skills: Seq<OperationSkillView>,
    now: i64,
)
    ensures
        saved_product_outcome(request, new_id, products, skills, now) matches Ok(saved) ==> {
            &&& is_trimmed_or(saved.id, request.id, new_id)
            &&& saved.title == text::trimmed(request.title)
            &&& saved.description == text::trimmed(request.description)
            &&& is_trimmed_or(saved.category, request.category, "通用"@)
            &&& saved.price_cents == request.price_cents
            &&& saved.billing_cycle == request.billing_cycle
            &&& saved.system_prompt == text::trimmed(request.system_prompt)
            &&& saved.allow_network == request.allow_network
            &&& saved.allowed_tools == request.allowed_tools
            &&& saved.application_ids == request.application_ids
            &&& saved.updated_at == now
            &&& forall|id: Seq<char>| #[trigger]
                saved.skill_ids.contains(id) <==> request.skill_ids.contains(id)
            &&& sorting::strictly_sorted(saved.skill_ids)
        },
{
    sorting::lemma_sorted_set_exists(request.skill_ids);
}

/// Saving an AI employee that is there keeps its status, its picture and when it
/// was made, and gives it the next version. A new one is active from now on, has
/// no picture and the first version.
pub proof fn law_saved_product_keeps_its_past(
    request: CreateAiEmployeeProductRequestView,
    new_id: Seq<char>,
    products: Seq<AiEmployeeProductView>,
    skills: Seq<OperationSkillView>,
    now: i64,
)
    ensures
        saved_product_outcome(request, new_id, products, skills, now) matches Ok(saved) ==> {
            &&& (forall|i: int| 0 <= i < products.len() ==> (#[trigger] products[i]).id != saved.id)
                ==> {
                &&& saved.status == "active"@
                &&& saved.avatar_url is None
                &&& saved.created_at == now
                &&& saved.version == "1.0.0"@
            }
            &&& forall|i: int|
                0 <= i < products.len() && (#[trigger] products[i]).id == saved.id && (forall|j: int|
                    0 <= j < i ==> (#[trigger] products[j]).id != saved.id) ==> {
                    &&& saved.status == products[i].status
                    &&& saved.avatar_url == products[i].avatar_url
                    &&& saved.created_at == products[i].created_at
                    &&& saved.version == versions::next_version(products[i].version)
                }
        },
{
    match saved_product_outcome(request, new_id, products, skills, now) {
        Ok(saved) => {
            let id = requested_id(request, new_id);
            lookup::lemma_found::<AiEmployeeProduct>(products, id);
            match product_with(products, id) {
                Some(product) => {
                    let k = products.index_of(product);
                    assert(products[k].id == saved.id);
                },
                None => {},
            }
            assert forall|i: int|
                0 <= i < products.len() && (#[trigger] products[i]).id == saved.id && (forall|j: int|
                    0 <= j < i ==> (#[trigger] products[j]).id != saved.id) implies {
                &&& saved.status == products[i].status
                &&& saved.avatar_url == products[i].avatar_url
                &&& saved.created_at == products[i].created_at
                &&& saved.version == versions::next_version(products[i].version)
            } by {
                assert forall|j: int| 0 <= j < i implies AiEmployeeProduct::key_of(
                    #[trigger] products[j],
                ) != id by {
                    assert(products[j].id != saved.id);
                }
                lookup::law_first_with_key_is_found::<AiEmployeeProduct>(products, id, i);
            }
        },
        Err(_) => {},
    }
}

/// An AI employee is saved exactly where it has a title, a price that is not
/// negative and a known billing cycle, and each of its skills is there and active.
pub proof fn law_product_is_saved_when_it_is_complete(
    request: CreateAiEmployeeProductRequestView,
    new_id: Seq<char>,
    products: Seq<AiEmployeeProductView>,
    skills: Seq<OperationSkillView>,
    now: i64,
)
    ensures
        saved_product_outcome(request, new_id, products, skills, now) is Ok <==> {
            &&& text::trimmed(request.title).len() > 0
            &&& request.price_cents >= 0
            &&& request.billing_cycle == "month"@ || request.billing_cycle == "year"@
                || request.billing_cycle == "one_time"@
            &&& forall|id: Seq<char>| #[trigger]
                request.skill_ids.contains(id) ==> (lookup::found::<OperationSkill>(
                    skills,
                    id,
                ) matches Some(skill) && skill.status == "active"@)
        },
{
    sorting::lemma_sorted_set_exists(request.skill_ids);
    let ids = sorting::sorted_set(request.skill_ids);
    lemma_skill_flaw_exactly(ids, skills);
    if skill_flaw(ids, skills) is None {
        assert forall|id: Seq<char>| #[trigger] request.skill_ids.contains(id) implies (
        lookup::found::<OperationSkill>(skills, id) matches Some(skill) && skill.status
            == "active"@) by {
            assert(ids.contains(id));
        }
    } else {
        let id = choose|id: Seq<char>| #[trigger]
            ids.contains(id) && !(lookup::found::<OperationSkill>(skills, id) matches Some(skill)
                && skill.status == "active"@);
        assert(request.skill_ids.contains(id));
    }
}

proof fn lemma_skill_flaw_exactly(ids: Seq<Seq<char>>, skills: Seq<OperationSkillView>)
    ensures
        skill_flaw(ids, skills) is None <==> forall|id: Seq<char>| #[trigger]
            ids.contains(id) ==> (lookup::found::<OperationSkill>(skills, id) matches Some(skill)
                && skill.status == "active"@),
    decreases ids.len(),
{
    if ids.len() > 0 {
        let rest = ids.skip(1);
        lemma_skill_flaw_exactly(rest, skills);
        assert(ids.contains(ids[0]));
        assert forall|id: Seq<char>| #[trigger] ids.contains(id) implies id == ids[0]
            || rest.contains(id) by {
            let k = ids.index_of(id);
            if k > 0 {
                assert(rest[k - 1] == id);
            }
        }
        assert forall|id: Seq<char>| #[trigger] rest.contains(id) implies ids.contains(id) by {
            let k = rest.index_of(id);
            assert(ids[k + 1] == id);
        }
    }
}

/// Switching an AI employee gives it the status that is asked for and the next
/// version, and leaves all else that it is.
pub proof fn law_switched_product_changes_status_only(
    request: StatusRequestView,
    employee_id: Seq<char>,
    products: Seq<AiEmployeeProductView>,
    skills: Seq<OperationSkillView>,
    now: i64,
)
    ensures
        product_status_outcome(request, employee_id, products, skills, now) matches Ok(saved) ==> {
            let before = lookup::found::<AiEmployeeProduct>(products, employee_id)->Some_0;
            &&& saved.id == employee_id
            &&& products.contains(before)
            &&& saved.status == request.status
            &&& saved.version == versions::next_version(before.version)
            &&& saved.updated_at == now
            &&& saved == (AiEmployeeProductView {
                status: saved.status,
                version: saved.version,
                package_version: saved.package_version,
                updated_at: saved.updated_at,
                ..before
            })
        },
        product_status_outcome(request, employee_id, products, skills, now) is Ok <==> {
            &&& request.status == "active"@ || request.status == "inactive"@
            &&& lookup::found::<AiEmployeeProduct>(products, employee_id) is Some
        },
{
    lookup::lemma_found::<AiEmployeeProduct>(products, employee_id);
}

/// A skill that was saved has the title, the description, the instructions and the
/// source of the request and the next version. It keeps its package, its status
/// and when it was made.
pub proof fn law_saved_skill_is_as_requested(
    request: SaveOperationSkillRequestView,
    skills: Seq<OperationSkillView>,
    now: i64,
)
    ensures
        saved_skill_outcome(request, skills, now) matches Ok(saved) ==> {
            let before = lookup::found::<OperationSkill>(
                skills,
                text::trimmed(request.id),
            )->Some_0;
            &&& saved.id == text::trimmed(request.id)
            &&& skills.contains(before)
            &&& saved.title == text::trimmed(request.title)
            &&& is_trimmed_or(saved.source, request.source, "operation-center"@)
            &&& saved.description == text::trimmed(request.description)
            &&& saved.instructions == text::trimmed(request.instructions)
            &&& saved.version == versions::next_version(before.version)
            &&& saved.updated_at == now
            &&& saved.package_name == before.package_name
            &&& saved.package_path == before.package_path
            &&& saved.status == before.status
            &&& saved.created_at == before.created_at
        },
        saved_skill_outcome(request, skills, now) is Ok <==> {
            &&& text::trimmed(request.id).len() > 0
            &&& text::trimmed(request.title).len() > 0
            &&& text::trimmed(request.instructions).len() > 0
            &&& lookup::found::<OperationSkill>(skills, text::trimmed(request.id)) is Some
        },
{
    lookup::lemma_found::<OperationSkill>(skills, text::trimmed(request.id));
}

/// Switching a skill gives it the status that is asked for and the next version,
/// and leaves all else that it is.
pub proof fn law_switched_skill_changes_status_only(
    request: StatusRequestView,
    skill_id: Seq<char>,
    skills: Seq<OperationSkillView>,
    now: i64,
)
    ensures
        skill_status_outcome(request, skill_id, skills, now) matches Ok(saved) ==> {
            let before = lookup::found::<OperationSkill>(skills, skill_id)->Some_0;
            &&& saved.id == skill_id
            &&& skills.contains(before)
            &&& saved.status == request.status
            &&& saved.version == versions::next_version(before.version)
            &&& saved.updated_at == now
            &&& saved == (OperationSkillView {
                status: saved.status,
                version: saved.version,
                updated_at: saved.updated_at,
                ..before
            })
        },
        skill_status_outcome(request, skill_id, skills, now) is Ok <==> {
            &&& request.status == "active"@ || request.status == "inactive"@
            &&& lookup::found::<OperationSkill>(skills, skill_id) is Some
        },
{
    lookup::lemma_found::<OperationSkill>(skills, skill_id);
}

/// An entry of the public market is an active AI employee with its title, its
/// description, its category, its price, its billing cycle and the version of its
/// package. It has the address of its picture where it has a picture.
pub proof fn law_market_entry_is_the_product(products: Seq<AiEmployeeProductView>, i: int)
    requires
        0 <= i < market_of(products).len(),
    ensures
        exists|k: int|
            {
                let shown = market_of(products)[i];
                &&& 0 <= k < products.len()
                &&& (#[trigger] products[k]).status == "active"@
                &&& shown.id == products[k].id
                &&& shown.title == products[k].title
                &&& shown.description == products[k].description
                &&& shown.category == products[k].category
                &&& shown.price_cents == products[k].price_cents
                &&& shown.billing_cycle == products[k].billing_cycle
                &&& shown.version == products[k].package_version
                &&& products[k].avatar_url is None ==> shown.avatar_url is None
                &&& products[k].avatar_url is Some ==> shown.avatar_url == Some(
                    "/api/ai-employees/"@ + products[k].id + "/avatar"@,
                )
            },
{
    let shown = market_of(products)[i];
    assert(market_of(products).contains(shown));
    law_market_shows_what_is_on_sale(products, shown);
    let k = choose|k: int|
        0 <= k < products.len() && on_sale(#[trigger] products[k]) && shown_in_market(products[k])
            == shown;
    assert(products[k].status == "active"@);
}

/// Every active AI employee is in the public market.
pub proof fn law_active_product_is_in_the_market(products: Seq<AiEmployeeProductView>, k: int)
    requires
        0 <= k < products.len(),
        products[k].status == "active"@,
    ensures
        exists|i: int|
            0 <= i < market_of(products).len() && (#[trigger] market_of(products)[i]).id
                == products[k].id && market_of(products)[i].price_cents
                == products[k].price_cents,
{
    let shown = shown_in_market(products[k]);
    assert(on_sale(products[k]));
    law_market_shows_what_is_on_sale(products, shown);
    let i = market_of(products).index_of(shown);
    assert(market_of(products)[i] == shown);
}

/// Whether a snapshot is one of a skill, with all that the skill is made of.
pub open spec fn is_snapshot(
    snapshot: OperationSkillSnapshotView,
    skill: OperationSkillView,
) -> bool {
    &&& snapshot.id == skill.id
    &&& snapshot.title == skill.title
    &&& snapshot.package_name == skill.package_name
    &&& snapshot.source == skill.source
    &&& snapshot.version == skill.version
    &&& snapshot.package_path == skill.package_path
    &&& snapshot.description == skill.description
    &&& snapshot.instructions == skill.instructions
}

proof fn lemma_among(ids: Seq<Seq<char>>, skills: Seq<OperationSkillView>)
    requires
        sorting::strictly_sorted(ids),
    ensures
        ({
            let found = skills_among(ids, skills);
            &&& forall|i: int|
                0 <= i < found.len() ==> ids.contains((#[trigger] found[i]).id) && skills.contains(
                    found[i],
                )
            &&& forall|i: int, j: int|
                0 <= i < j < found.len() ==> text::text_lt(
                    (#[trigger] found[i]).id,
                    (#[trigger] found[j]).id,
                )
            &&& forall|id: Seq<char>| #[trigger]
                ids.contains(id) && lookup::found::<OperationSkill>(skills, id) is Some
                    ==> found.contains(lookup::found::<OperationSkill>(skills, id)->Some_0)
        }),
    decreases ids.len(),
{
    if ids.len() > 0 {
        let init = ids.drop_last();
        let last = ids.last();
        assert forall|i: int, j: int| 0 <= i < j < init.len() implies text::text_lt(
            #[trigger] init[i],
            #[trigger] init[j],
        ) by {
            assert(text::text_lt(ids[i], ids[j]));
        }
        lemma_among(init, skills);
        lookup::lemma_found::<OperationSkill>(skills, last);
        let before = skills_among(init, skills);
        let found = skills_among(ids, skills);
        assert(ids[ids.len() - 1] == last);
        assert forall|i: int| 0 <= i < found.len() implies ids.contains((#[trigger] found[i]).id)
            && skills.contains(found[i]) by {
            if i < before.len() {
                assert(found[i] == before[i]);
                assert(init.contains(before[i].id));
                let k = init.index_of(before[i].id);
                assert(ids[k] == before[i].id);
            }
        }
        assert forall|i: int, j: int| 0 <= i < j < found.len() implies text::text_lt(
            (#[trigger] found[i]).id,
            (#[trigger] found[j]).id,
        ) by {
            assert(found[i] == before[i]);
            if j < before.len() {
                assert(found[j] == before[j]);
            } else {
                assert(init.contains(before[i].id));
                let k = init.index_of(before[i].id);
                assert(text::text_lt(ids[k], ids[ids.len() - 1]));
            }
        }
        assert forall|id: Seq<char>| #[trigger]
            ids.contains(id) && lookup::found::<OperationSkill>(
                skills,
                id,
            ) is Some implies found.contains(
            lookup::found::<OperationSkill>(skills, id)->Some_0,
        ) by {
            let k = ids.index_of(id);
            let skill = lookup::found::<OperationSkill>(skills, id)->Some_0;
            if k < init.len() {
                assert(init[k] == id);
                assert(init.contains(id));
                let i = before.index_of(skill);
                assert(found[i] == skill);
            } else {
                assert(found[found.len() - 1] == skill);
            }
        }
    }
}

/// The skills that an AI employee is handed out with are those that it has and
/// that are there, each once, in the order of their identifiers, and as they are
/// now.
pub proof fn law_snapshots_are_the_skills(
    product: AiEmployeeProductView,
    skills: Seq<OperationSkillView>,
)
    ensures
        forall|i: int|
            0 <= i < snapshots_of(product, skills).len() ==> {
                let snapshot = #[trigger] snapshots_of(product, skills)[i];
                &&& product.skill_ids.contains(snapshot.id)
                &&& exists|k: int|
                    0 <= k < skills.len() && is_snapshot(snapshot, #[trigger] skills[k])
            },
        forall|i: int, j: int|
            0 <= i < j < snapshots_of(product, skills).len() ==> text::text_lt(
                (#[trigger] snapshots_of(product, skills)[i]).id,
                (#[trigger] snapshots_of(product, skills)[j]).id,
            ),
        forall|id: Seq<char>| #[trigger]
            product.skill_ids.contains(id) ==> (lookup::found::<OperationSkill>(
                skills,
                id,
            ) matches Some(skill) ==> exists|i: int|
                0 <= i < snapshots_of(product, skills).len() && is_snapshot(
                    #[trigger] snapshots_of(product, skills)[i],
                    skill,
                )),
{
    sorting::lemma_sorted_set_exists(product.skill_ids);
    let ids = sorting::sorted_set(product.skill_ids);
    lemma_among(ids, skills);
    let found = skills_among(ids, skills);
    let snapshots = snapshots_of(product, skills);
    assert forall|i: int| 0 <= i < snapshots.len() implies {
        let snapshot = #[trigger] snapshots[i];
        &&& product.skill_ids.contains(snapshot.id)
        &&& exists|k: int| 0 <= k < skills.len() && is_snapshot(snapshot, #[trigger] skills[k])
    } by {
        let k = skills.index_of(found[i]);
        assert(ids.contains(found[i].id));
        assert(is_snapshot(snapshots[i], skills[k]));
    }
    assert forall|i: int, j: int| 0 <= i < j < snapshots.len() implies text::text_lt(
        (#[trigger] snapshots[i]).id,
        (#[trigger] snapshots[j]).id,
    ) by {
        assert(text::text_lt(found[i].id, found[j].id));
    }
    assert forall|id: Seq<char>| #[trigger]
        product.skill_ids.contains(id) implies (lookup::found::<OperationSkill>(
        skills,
        id,
    ) matches Some(skill) ==> exists|i: int|
        0 <= i < snapshots.len() && is_snapshot(#[trigger] snapshots[i], skill)) by {
        assert(ids.contains(id));
        match lookup::found::<OperationSkill>(skills, id) {
            Some(skill) => {
                let i = found.index_of(skill);
                assert(is_snapshot(snapshots[i], skill));
            },
            None => {},
        }
    }
}

/// Once a skill was changed, only the AI employees that have it are brought up to
/// date, and of those only the package version and when they were changed.
pub proof fn law_refreshing_changes_packages_only(
    products: Seq<AiEmployeeProductView>,
    skill_id: Seq<char>,
    skills: Seq<OperationSkillView>,
    now: i64,
    i: int,
)
    requires
        0 <= i < products.len(),
    ensures
        refreshed_for_skill(products, skill_id, skills, now).len() == products.len(),
        ({
            let after = refreshed_for_skill(products, skill_id, skills, now)[i];
            &&& !products[i].skill_ids.contains(skill_id) ==> after == products[i]
            &&& products[i].skill_ids.contains(skill_id) ==> after.updated_at == now
            &&& after == (AiEmployeeProductView {
                package_version: after.package_version,
                updated_at: after.updated_at,
                ..products[i]
            })
        }),
{
}

/// What is refused of the catalog is a bad request, unless the request is sound and
/// what it names is not there.
pub proof fn law_refused_change_of_the_catalog_says_why(
    product: CreateAiEmployeeProductRequestView,
    skill: SaveOperationSkillRequestView,
    switch: StatusRequestView,
    id: Seq<char>,
    products: Seq<AiEmployeeProductView>,
    skills: Seq<OperationSkillView>,
    now: i64,
)
    ensures
        saved_product_outcome(product, id, products, skills, now) matches Err(e) ==> e.status
            == 400,
        product_status_outcome(switch, id, products, skills, now) matches Err(e) ==> {
            if switch.status == "active"@ || switch.status == "inactive"@ {
                e.status == 404
            } else {
                e.status == 400
            }
        },
        skill_status_outcome(switch, id, skills, now) matches Err(e) ==> {
            if switch.status == "active"@ || switch.status == "inactive"@ {
                e.status == 404
            } else {
                e.status == 400
            }
        },
        saved_skill_outcome(skill, skills, now) matches Err(e) ==> {
            if text::trimmed(skill.id).len() > 0 && text::trimmed(skill.title).len() > 0
                && text::trimmed(skill.instructions).len() > 0 {
                e.status == 404
            } else {
                e.status == 400
            }
        },
{
    let draft = drafted(
        product,
        requested_id(product, id),
        product_with(products, requested_id(product, id)),
        now,
    );
    lemma_skill_flaw_is_bad_request(draft.skill_ids, skills);
}

proof fn lemma_skill_flaw_is_bad_request(ids: Seq<Seq<char>>, skills: Seq<OperationSkillView>)
    ensures
        skill_flaw(ids, skills) matches Some(e) ==> e.status == 400,
    decreases ids.len(),
{
    if ids.len() > 0 {
        lemma_skill_flaw_is_bad_request(ids.skip(1), skills);
    }
}

} // verus!
