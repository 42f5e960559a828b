//! The life of a license: it is handed over, activated, replaced by a newer
//! one, and destroyed.

use vstd::prelude::*;

use crate::clock;
use crate::copying::{duplicate_all, duplicate_opt, Duplicate};
use crate::licenses;
use crate::licenses::{AiEmployeeEntitlement, LicenseClaims, LicenseRecord};
use crate::lookup;
use crate::orders;
use crate::orders::OrderRecord;
use crate::rejection;
use crate::rejection::{refuse, Rejection};
use crate::sorting;
use crate::text;
use crate::text_map;
use crate::text_map::TextMap;

verus! {

/// A license as it is listed.
pub struct LicenseView {
    pub license: String,
    pub license_id: String,
    pub subject: String,
    pub customer_name_snapshot: String,
    pub order_id: Option<String>,
    pub linkage_status: String,
    pub modules: Vec<String>,
    pub issued_at: i64,
    pub expires_at: i64,
    pub module_expires_at: TextMap<i64>,
    pub module_titles: TextMap<String>,
    pub ai_employees: Vec<AiEmployeeEntitlement>,
    pub ai_employee_statuses: TextMap<String>,
    pub platform_status: String,
    pub module_statuses: TextMap<String>,
}

/// What a listed license holds.
#[verifier::ext_equal]
pub struct LicenseFields {
    pub license: Seq<char>,
    pub license_id: Seq<char>,
    pub subject: Seq<char>,
    pub customer_name_snapshot: Seq<char>,
    pub order_id: Option<Seq<char>>,
    pub linkage_status: Seq<char>,
    pub modules: Seq<Seq<char>>,
    pub issued_at: i64,
    pub expires_at: i64,
    pub module_expires_at: Map<Seq<char>, i64>,
    pub module_titles: Map<Seq<char>, Seq<char>>,
    pub ai_employees: Seq<licenses::AiEmployeeEntitlementView>,
    pub ai_employee_statuses: Map<Seq<char>, Seq<char>>,
    pub platform_status: Seq<char>,
    pub module_statuses: Map<Seq<char>, Seq<char>>,
}

impl View for LicenseView {
    type V = LicenseFields;

    open spec fn view(&self) -> LicenseFields {
        LicenseFields {
            license: self.license@,
            license_id: self.license_id@,
            subject: self.subject@,
            customer_name_snapshot: self.customer_name_snapshot@,
            order_id: text::opt_view(self.order_id),
            linkage_status: self.linkage_status@,
            modules: text::views(self.modules@),
            issued_at: self.issued_at,
            expires_at: self.expires_at,
            module_expires_at: self.module_expires_at@,
            module_titles: self.module_titles@,
            ai_employees: text::views(self.ai_employees@),
            ai_employee_statuses: self.ai_employee_statuses@,
            platform_status: self.platform_status@,
            module_statuses: self.module_statuses@,
        }
    }
}

/// Whether a license is valid, and whether there is a newer one.
pub struct LicenseStatus {
    pub valid: bool,
    pub latest_license: Option<String>,
    pub latest_license_id: Option<String>,
    pub latest_issued_at: Option<i64>,
}

/// What a `LicenseStatus` holds.
#[verifier::ext_equal]
pub struct LicenseStatusView {
    pub valid: bool,
    pub latest_license: Option<Seq<char>>,
    pub latest_license_id: Option<Seq<char>>,
    pub latest_issued_at: Option<i64>,
}

impl View for LicenseStatus {
    type V = LicenseStatusView;

    open spec fn view(&self) -> LicenseStatusView {
        LicenseStatusView {
            valid: self.valid,
            latest_license: text::opt_view(self.latest_license),
            latest_license_id: text::opt_view(self.latest_license_id),
            latest_issued_at: self.latest_issued_at,
        }
    }
}

/// The status of a license without a newer one.
pub open spec fn plain_status(valid: bool) -> LicenseStatusView {
    LicenseStatusView {
        valid,
        latest_license: None,
        latest_license_id: None,
        latest_issued_at: None,
    }
}

impl LicenseStatus {
    /// The status of a license without a newer one.
    pub fn simple(valid: bool) -> (r: Self)
        ensures
            r@ == plain_status(valid),
    {
        LicenseStatus {
            valid,
            latest_license: None,
            latest_license_id: None,
            latest_issued_at: None,
        }
    }
}

/// Until when a module of a license lasts: as long as the license, unless it
/// has an expiry of its own.
pub open spec fn expiry_of(license: licenses::LicenseRecordView, module: Seq<char>) -> i64 {
    if license.module_expires_at.contains_key(module) {
        license.module_expires_at[module]
    } else {
        license.expires_at
    }
}

/// Until when a module of a license lasts.
pub fn module_expiry(license: &LicenseRecord, module: &str) -> (r: i64)
    ensures
        r == expiry_of(license@, module@),
{
    match license.module_expires_at.get(module) {
        Some(expires_at) => *expires_at,
        None => license.expires_at,
    }
}

/// The title of a module.
pub open spec fn title_of(module: Seq<char>) -> Seq<char> {
    if module == "platform"@ {
        "低代码平台"@
    } else if module == "communication"@ {
        "通讯模型"@
    } else {
        module
    }
}

/// The title of a module.
pub fn module_title(module: &str) -> (r: String)
    ensures
        r@ == title_of(module@),
{
    if text::same(module, "platform") {
        "低代码平台".to_string()
    } else if text::same(module, "communication") {
        "通讯模型".to_string()
    } else {
        module.to_string()
    }
}

/// The status that a license is listed with.
pub open spec fn listed_status(license: licenses::LicenseRecordView, now: int) -> Seq<char> {
    if license.platform_status == "destroyed"@ {
        "destroyed"@
    } else if license.expires_at <= now {
        "expired"@
    } else {
        license.platform_status
    }
}

/// The status that a module of a license is listed with.
pub open spec fn listed_module_status(
    license: licenses::LicenseRecordView,
    module: Seq<char>,
    now: int,
) -> Seq<char> {
    let platform = listed_status(license, now);
    if module == "platform"@ {
        platform
    } else if platform == "destroyed"@ {
        "destroyed"@
    } else if platform == "expired"@ || expiry_of(license, module) <= now {
        "expired"@
    } else if license.module_statuses.contains_key(module) {
        license.module_statuses[module]
    } else {
        "unactivated"@
    }
}

/// The status that an AI employee of a license is listed with.
pub open spec fn listed_employee_status(
    platform: Seq<char>,
    expires_at: int,
    now: int,
) -> Seq<char> {
    if platform == "destroyed"@ {
        "destroyed"@
    } else if platform == "expired"@ || expires_at <= now {
        "expired"@
    } else if platform == "running"@ {
        "running"@
    } else {
        "unactivated"@
    }
}

/// The statuses that the AI employees of a license are listed with, by
/// identifier.
pub open spec fn employee_statuses(
    employees: Seq<licenses::AiEmployeeEntitlementView>,
    platform: Seq<char>,
    now: int,
) -> Map<Seq<char>, Seq<char>>
    decreases employees.len(),
{
    if employees.len() == 0 {
        Map::empty()
    } else {
        employee_statuses(employees.drop_last(), platform, now).insert(
            employees.last().id,
            listed_employee_status(platform, employees.last().expires_at as int, now),
        )
    }
}

/// A license as it is listed at a second.
pub open spec fn listed(license: licenses::LicenseRecordView, now: int) -> LicenseFields {
    LicenseFields {
        license: license.license,
        license_id: license.license_id,
        subject: license.subject,
        customer_name_snapshot: license.customer_name_snapshot,
        order_id: license.order_id,
        linkage_status: license.linkage_status,
        modules: license.modules,
        issued_at: license.issued_at,
        expires_at: license.expires_at,
        module_expires_at: license.module_expires_at,
        module_titles: Map::new(
            |m: Seq<char>| license.modules.contains(m),
            |m: Seq<char>| title_of(m),
        ),
        ai_employees: license.ai_employees,
        ai_employee_statuses: employee_statuses(
            license.ai_employees,
            listed_status(license, now),
            now,
        ),
        platform_status: listed_status(license, now),
        module_statuses: Map::new(
            |m: Seq<char>| license.modules.contains(m),
            |m: Seq<char>| listed_module_status(license, m, now),
        ),
    }
}

/// The status that a module of a license is listed with.
fn module_status(license: &LicenseRecord, platform: &str, module: &str, now: i64) -> (r: String)
    requires
        platform@ == listed_status(license@, now as int),
    ensures
        r@ == listed_module_status(license@, module@, now as int),
{
    if text::same(module, "platform") {
        platform.to_string()
    } else if text::same(platform, "destroyed") {
        "destroyed".to_string()
    } else if text::same(platform, "expired") || module_expiry(license, module) <= now {
        "expired".to_string()
    } else {
        match license.module_statuses.get(module) {
            Some(status) => status.clone(),
            None => "unactivated".to_string(),
        }
    }
}

/// The status that an AI employee of a license is listed with.
fn employee_status(platform: &str, expires_at: i64, now: i64) -> (r: String)
    ensures
        r@ == listed_employee_status(platform@, expires_at as int, now as int),
{
    if text::same(platform, "destroyed") {
        "destroyed".to_string()
    } else if text::same(platform, "expired") || expires_at <= now {
        "expired".to_string()
    } else if text::same(platform, "running") {
        "running".to_string()
    } else {
        "unactivated".to_string()
    }
}

/// A license as it is listed at a second.
pub fn license_view_at(license: &LicenseRecord, now: i64) -> (r: LicenseView)
    ensures
        r@ == listed(license@, now as int),
{
    let platform_status = if text::same(license.platform_status.as_str(), "destroyed") {
        "destroyed".to_string()
    } else if license.expires_at <= now {
        "expired".to_string()
    } else {
        license.platform_status.clone()
    };
    let ghost modules = text::views(license.modules@);
    let mut module_statuses: TextMap<String> = TextMap::new();
    let mut module_titles: TextMap<String> = TextMap::new();
    let mut i: usize = 0;
    assert(module_statuses@ =~= Map::new(
        |m: Seq<char>| modules.take(0).contains(m),
        |m: Seq<char>| listed_module_status(license@, m, now as int),
    ));
    assert(module_titles@ =~= Map::new(
        |m: Seq<char>| modules.take(0).contains(m),
        |m: Seq<char>| title_of(m),
    ));
    while i < license.modules.len()
        invariant
            i <= license.modules@.len(),
            modules == text::views(license.modules@),
            platform_status@ == listed_status(license@, now as int),
            module_statuses@ == Map::new(
                |m: Seq<char>| modules.take(i as int).contains(m),
                |m: Seq<char>| listed_module_status(license@, m, now as int),
            ),
            module_titles@ == Map::new(
                |m: Seq<char>| modules.take(i as int).contains(m),
                |m: Seq<char>| title_of(m),
            ),
        decreases license.modules@.len() - i,
    {
        let module = &license.modules[i];
        proof {
            text::lemma_take_contains(modules, i as int);
            assert(modules[i as int] == module@);
        }
        let status = module_status(license, platform_status.as_str(), module.as_str(), now);
        module_statuses.insert(module.clone(), status);
        module_titles.insert(module.clone(), module_title(module.as_str()));
        assert(module_statuses@ =~= Map::new(
            |m: Seq<char>| modules.take(i + 1).contains(m),
            |m: Seq<char>| listed_module_status(license@, m, now as int),
        ));
        assert(module_titles@ =~= Map::new(
            |m: Seq<char>| modules.take(i + 1).contains(m),
            |m: Seq<char>| title_of(m),
        ));
        i = i + 1;
    }
    assert(modules.take(modules.len() as int) =~= modules);
    let ghost employees = text::views(license.ai_employees@);
    let mut ai_employee_statuses: TextMap<String> = TextMap::new();
    let mut j: usize = 0;
    assert(employees.take(0) =~= Seq::<licenses::AiEmployeeEntitlementView>::empty());
    while j < license.ai_employees.len()
        invariant
            j <= license.ai_employees@.len(),
            employees == text::views(license.ai_employees@),
            platform_status@ == listed_status(license@, now as int),
            ai_employee_statuses@ == employee_statuses(
                employees.take(j as int),
                platform_status@,
                now as int,
            ),
        decreases license.ai_employees@.len() - j,
    {
        let employee = &license.ai_employees[j];
        proof {
            assert(employees.take(j + 1).drop_last() =~= employees.take(j as int));
            assert(employees.take(j + 1).last() == employee@);
        }
        ai_employee_statuses.insert(
            employee.id.clone(),
            employee_status(platform_status.as_str(), employee.expires_at, now),
        );
        j = j + 1;
    }
    assert(employees.take(employees.len() as int) =~= employees);
    LicenseView {
        license: license.license.clone(),
        license_id: license.license_id.clone(),
        subject: license.subject.clone(),
        customer_name_snapshot: license.customer_name_snapshot.clone(),
        order_id: duplicate_opt(&license.order_id),
        linkage_status: license.linkage_status.clone(),
        modules: duplicate_all(&license.modules),
        issued_at: license.issued_at,
        expires_at: license.expires_at,
        module_expires_at: license.module_expires_at.duplicate(),
        module_titles,
        ai_employees: duplicate_all(&license.ai_employees),
        ai_employee_statuses,
        platform_status,
        module_statuses,
    }
}

/// Whether a license is listed like this at some time.
pub open spec fn is_listed_as(license: licenses::LicenseRecordView, fields: LicenseFields) -> bool {
    exists|now: int| 0 <= now <= clock::LAST_SECOND && fields == #[trigger] listed(license, now)
}

/// A license as it is listed now.
pub fn license_view(license: &LicenseRecord) -> (r: LicenseView)
    ensures
        is_listed_as(license@, r@),
{
    let now = clock::now();
    let ghost view = listed(license@, now as int);
    license_view_at(license, now)
}

/// Licenses in the order in which they are listed: the newest first.
pub open spec fn newest_first(records: Seq<licenses::LicenseRecordView>) -> Seq<
    licenses::LicenseRecordView,
> {
    sorting::sorted_by_rank::<LicenseRecord>(records)
}

/// Licenses as they are listed now, the newest first.
pub fn list_licenses(records: &Vec<LicenseRecord>) -> (r: Vec<LicenseView>)
    ensures
        r@.len() == records@.len(),
        forall|i: int|
            0 <= i < r@.len() ==> is_listed_as(
                newest_first(text::views(records@))[i],
                (#[trigger] r@[i])@,
            ),
{
    let sorted = sorting::stable_sort(duplicate_all(records));
    let ghost listed = newest_first(text::views(records@));
    let mut out: Vec<LicenseView> = Vec::new();
    let mut i: usize = 0;
    while i < sorted.len()
        invariant
            i <= sorted@.len(),
            out@.len() == i,
            listed == text::views(sorted@),
            forall|k: int| 0 <= k < i ==> is_listed_as(listed[k], (#[trigger] out@[k])@),
        decreases sorted@.len() - i,
    {
        assert(listed[i as int] == sorted@[i as int]@);
        out.push(license_view(&sorted[i]));
        i = i + 1;
    }
    out
}

/// A license that is destroyed or expired is listed as such, with all of its
/// modules and AI employees.
pub proof fn law_ended_license_ends_everything(
    license: licenses::LicenseRecordView,
    module: Seq<char>,
    now: int,
)
    requires
        license.platform_status == "destroyed"@ || license.expires_at <= now,
        license.modules.contains(module),
    ensures
        listed(license, now).module_statuses[module] == listed(license, now).platform_status,
        forall|id: Seq<char>|
            #[trigger]
            listed(license, now).ai_employee_statuses.contains_key(id)
                ==> listed(license, now).ai_employee_statuses[id] == listed(
                license,
                now,
            ).platform_status,
{
    lemma_ended_employees(license.ai_employees, listed_status(license, now), now);
}

proof fn lemma_ended_employees(
    employees: Seq<licenses::AiEmployeeEntitlementView>,
    platform: Seq<char>,
    now: int,
)
    requires
        platform == "destroyed"@ || platform == "expired"@,
    ensures
        forall|id: Seq<char>| #[trigger]
            employee_statuses(employees, platform, now).contains_key(id) ==> employee_statuses(
                employees,
                platform,
                now,
            )[id] == platform,
    decreases employees.len(),
{
    if employees.len() > 0 {
        let init = employees.drop_last();
        lemma_ended_employees(init, platform, now);
        assert forall|id: Seq<char>| #[trigger]
            employee_statuses(employees, platform, now).contains_key(id) implies employee_statuses(
            employees,
            platform,
            now,
        )[id] == platform by {
            if id != employees.last().id {
                assert(employee_statuses(init, platform, now).contains_key(id));
            }
        }
    }
}

/// Whether a license was not destroyed.
pub open spec fn is_live(license: licenses::LicenseRecordView) -> bool {
    license.platform_status != "destroyed"@
}

/// Whether a license belongs to no order. Such a license can only be read.
pub open spec fn is_legacy(license: licenses::LicenseRecordView) -> bool {
    license.linkage_status == "legacy_unlinked"@
}

/// Whether a license belongs to an order.
pub open spec fn is_linked(license: licenses::LicenseRecordView) -> bool {
    license.linkage_status == "linked"@
}

/// Whether a license is at least as new as another: issued later, or at the
/// same second under a later identifier.
pub open spec fn is_as_new(
    a: licenses::LicenseRecordView,
    b: licenses::LicenseRecordView,
) -> bool {
    a.issued_at > b.issued_at || (a.issued_at == b.issued_at && text::text_le(
        b.license_id,
        a.license_id,
    ))
}

/// Whether a license is at least as new as another.
fn as_new(a: &LicenseRecord, b: &LicenseRecord) -> (r: bool)
    ensures
        r == is_as_new(a@, b@),
{
    a.issued_at > b.issued_at || (a.issued_at == b.issued_at && text::in_order(
        b.license_id.as_str(),
        a.license_id.as_str(),
    ))
}

/// The newest license of a kind.
pub open spec fn newest(
    records: Seq<licenses::LicenseRecordView>,
    wanted: spec_fn(licenses::LicenseRecordView) -> bool,
) -> Option<licenses::LicenseRecordView>
    decreases records.len(),
{
    if records.len() == 0 {
        None
    } else {
        let before = newest(records.drop_last(), wanted);
        let last = records.last();
        if !wanted(last) {
            before
        } else {
            match before {
                None => Some(last),
                Some(other) => if is_as_new(last, other) {
                    Some(last)
                } else {
                    Some(other)
                },
            }
        }
    }
}

/// The newest license of a kind is one of that kind, and none of that kind is
/// newer.
pub proof fn lemma_newest(
    records: Seq<licenses::LicenseRecordView>,
    wanted: spec_fn(licenses::LicenseRecordView) -> bool,
)
    ensures
        match newest(records, wanted) {
            Some(record) => {
                &&& records.contains(record)
                &&& wanted(record)
                &&& forall|i: int|
                    0 <= i < records.len() && wanted(#[trigger] records[i]) ==> is_as_new(
                        record,
                        records[i],
                    )
            },
            None => forall|i: int| 0 <= i < records.len() ==> !wanted(#[trigger] records[i]),
        },
    decreases records.len(),
{
    if records.len() > 0 {
        let init = records.drop_last();
        let last = records.last();
        lemma_newest(init, wanted);
        assert(records[records.len() - 1] == last);
        assert forall|i: int| 0 <= i < init.len() implies #[trigger] records[i] == init[i] by {}
        match newest(init, wanted) {
            Some(other) => {
                let k = init.index_of(other);
                assert(records[k] == other);
                text::lemma_text_le_total(other.license_id, last.license_id);
                assert forall|i: int|
                    0 <= i < records.len() && wanted(#[trigger] records[i]) implies is_as_new(
                    newest(records, wanted)->Some_0,
                    records[i],
                ) by {
                    if i < init.len() {
                        assert(is_as_new(other, init[i]));
                        if wanted(last) && is_as_new(last, other) && last.issued_at
                            == init[i].issued_at {
                            text::lemma_text_le_transitive(
                                init[i].license_id,
                                other.license_id,
                                last.license_id,
                            );
                        }
                    } else {
                        text::lemma_text_le_reflexive(last.license_id);
                    }
                }
            },
            None => {
                text::lemma_text_le_reflexive(last.license_id);
            },
        }
    }
}

/// The position of the newest of the licenses that are marked.
fn newest_marked(
    records: &Vec<LicenseRecord>,
    marks: &Vec<bool>,
    wanted: Ghost<spec_fn(licenses::LicenseRecordView) -> bool>,
) -> (r: Option<usize>)
    requires
        marks@.len() == records@.len(),
        forall|i: int|
            0 <= i < records@.len() ==> #[trigger] marks@[i] == (wanted@)(records@[i]@),
    ensures
        match r {
            Some(i) => i < records@.len() && newest(text::views(records@), wanted@) == Some(
                records@[i as int]@,
            ),
            None => newest(text::views(records@), wanted@) is None,
        },
{
    let ghost all = text::views(records@);
    let mut best: Option<usize> = None;
    let mut i: usize = 0;
    assert(all.take(0) =~= Seq::<licenses::LicenseRecordView>::empty());
    while i < records.len()
        invariant
            i <= records@.len(),
            all == text::views(records@),
            marks@.len() == records@.len(),
            forall|k: int|
                0 <= k < records@.len() ==> #[trigger] marks@[k] == (wanted@)(records@[k]@),
            match best {
                Some(b) => b < records@.len() && newest(all.take(i as int), wanted@) == Some(
                    records@[b as int]@,
                ),
                None => newest(all.take(i as int), wanted@) is None,
            },
        decreases records@.len() - i,
    {
        proof {
            assert(all.take(i + 1).drop_last() =~= all.take(i as int));
            assert(all.take(i + 1).last() == records@[i as int]@);
        }
        if marks[i] {
            match best {
                None => {
                    best = Some(i);
                },
                Some(b) => {
                    if as_new(&records[i], &records[b]) {
                        best = Some(i);
                    }
                },
            }
        }
        i = i + 1;
    }
    assert(all.take(all.len() as int) =~= all);
    best
}

/// Whether a license is one of a customer that is in force.
pub open spec fn in_force(subject: Seq<char>) -> spec_fn(licenses::LicenseRecordView) -> bool {
    |l: licenses::LicenseRecordView| l.subject == subject && is_linked(l) && is_live(l)
}

/// Whether a license is one of a customer that can be used at a second.
pub open spec fn usable(subject: Seq<char>, now: int) -> spec_fn(
    licenses::LicenseRecordView,
) -> bool {
    |l: licenses::LicenseRecordView|
        l.subject == subject && !is_legacy(l) && is_live(l) && l.expires_at > now
}

/// The position of the newest license of a customer that is in force.
fn newest_in_force(records: &Vec<LicenseRecord>, subject: &str) -> (r: Option<usize>)
    ensures
        match r {
            Some(i) => i < records@.len() && newest(text::views(records@), in_force(subject@))
                == Some(records@[i as int]@),
            None => newest(text::views(records@), in_force(subject@)) is None,
        },
{
    let mut marks: Vec<bool> = Vec::new();
    let mut i: usize = 0;
    while i < records.len()
        invariant
            i <= records@.len(),
            marks@.len() == i,
            forall|k: int| 0 <= k < i ==> #[trigger] marks@[k] == in_force(subject@)(records@[k]@),
        decreases records@.len() - i,
    {
        let l = &records[i];
        marks.push(
            text::same(l.subject.as_str(), subject) && text::same(
                l.linkage_status.as_str(),
                "linked",
            ) && !text::same(l.platform_status.as_str(), "destroyed"),
        );
        i = i + 1;
    }
    newest_marked(records, &marks, Ghost(in_force(subject@)))
}

/// The newest license of a customer that can be used at a second.
pub fn newest_usable<'a>(records: &'a Vec<LicenseRecord>, subject: &str, now: i64) -> (r: Option<
    &'a LicenseRecord,
>)
    ensures
        match r {
            Some(l) => newest(text::views(records@), usable(subject@, now as int)) == Some(l@),
            None => newest(text::views(records@), usable(subject@, now as int)) is None,
        },
{
    let mut marks: Vec<bool> = Vec::new();
    let mut i: usize = 0;
    while i < records.len()
        invariant
            i <= records@.len(),
            marks@.len() == i,
            forall|k: int|
                0 <= k < i ==> #[trigger] marks@[k] == usable(subject@, now as int)(records@[k]@),
        decreases records@.len() - i,
    {
        let l = &records[i];
        marks.push(
            text::same(l.subject.as_str(), subject) && !text::same(
                l.linkage_status.as_str(),
                "legacy_unlinked",
            ) && !text::same(l.platform_status.as_str(), "destroyed") && l.expires_at > now,
        );
        i = i + 1;
    }
    match newest_marked(records, &marks, Ghost(usable(subject@, now as int))) {
        Some(at) => Some(&records[at]),
        None => None,
    }
}

/// A license that is destroyed, with all of its modules.
pub open spec fn destroyed(license: licenses::LicenseRecordView) -> licenses::LicenseRecordView {
    licenses::LicenseRecordView {
        platform_status: "destroyed"@,
        module_statuses: text_map::marked(
            license.module_statuses,
            license.modules,
            "destroyed"@,
        ),
        ..license
    }
}

/// Destroys a license with all of its modules.
pub fn destroy(license: &LicenseRecord) -> (r: LicenseRecord)
    ensures
        r@ == destroyed(license@),
{
    let mut gone = license.duplicate();
    gone.platform_status = "destroyed".to_string();
    gone.module_statuses.mark(&license.modules, "destroyed");
    gone
}

/// A license when another one of its customer is activated: the activated one
/// has the new statuses, every other one that was in force is destroyed, and
/// all else stays.
pub open spec fn after_activation(
    license: licenses::LicenseRecordView,
    activated: licenses::LicenseRecordView,
) -> licenses::LicenseRecordView {
    if !is_linked(license) || !is_live(license) {
        license
    } else if license.license_id == activated.license_id {
        licenses::LicenseRecordView {
            platform_status: activated.platform_status,
            module_statuses: activated.module_statuses,
            ..license
        }
    } else if license.subject == activated.subject {
        destroyed(license)
    } else {
        license
    }
}

/// Whether a license is the newest of its customer that is in force.
pub open spec fn is_newest(
    records: Seq<licenses::LicenseRecordView>,
    license: licenses::LicenseRecordView,
) -> bool {
    newest(records, in_force(license.subject)) matches Some(record) && record.license_id
        == license.license_id
}

/// The licenses after one of them was activated.
pub open spec fn activated_records(
    records: Seq<licenses::LicenseRecordView>,
    activated: licenses::LicenseRecordView,
) -> Seq<licenses::LicenseRecordView> {
    records.map_values(|l: licenses::LicenseRecordView| after_activation(l, activated))
}

/// Activates a license if it is the newest of its customer that is in force;
/// that destroys every older one. Otherwise nothing changes.
pub fn activate_latest_license_record(
    records: &mut Vec<LicenseRecord>,
    license: &LicenseRecord,
) -> (r: bool)
    ensures
        r == is_newest(text::views(old(records)@), license@),
        text::views(final(records)@) == (if r {
            activated_records(text::views(old(records)@), license@)
        } else {
            text::views(old(records)@)
        }),
{
    let ghost before = text::views(records@);
    match newest_in_force(&*records, license.subject.as_str()) {
        Some(at) => {
            if !text::same(records[at].license_id.as_str(), license.license_id.as_str()) {
                return false;
            }
        },
        None => {
            return false;
        },
    }
    let total: usize = records.len();
    let mut i: usize = 0;
    while i < total
        invariant
            i <= total,
            records@.len() == total,
            before.len() == total,
            forall|k: int|
                0 <= k < i ==> (#[trigger] records@[k])@ == after_activation(before[k], license@),
            forall|k: int| i <= k < records@.len() ==> (#[trigger] records@[k])@ == before[k],
        decreases total - i,
    {
        let mut record = records[i].duplicate();
        assert(record@ == before[i as int]);
        if text::same(record.linkage_status.as_str(), "linked") && !text::same(
            record.platform_status.as_str(),
            "destroyed",
        ) {
            if text::same(record.license_id.as_str(), license.license_id.as_str()) {
                record.platform_status = license.platform_status.clone();
                record.module_statuses = license.module_statuses.duplicate();
            } else if text::same(record.subject.as_str(), license.subject.as_str()) {
                record = destroy(&record);
            }
        }
        assert(record@ =~= after_activation(before[i as int], license@));
        records.set(i, record);
        i = i + 1;
    }
    assert(text::views(records@) =~= activated_records(before, license@));
    true
}

/// A license that runs, with each of some modules running or expired.
pub open spec fn running(
    license: licenses::LicenseRecordView,
    modules: Seq<Seq<char>>,
    now: int,
) -> licenses::LicenseRecordView {
    licenses::LicenseRecordView {
        platform_status: "running"@,
        module_statuses: Map::new(
            |m: Seq<char>| license.module_statuses.contains_key(m) || modules.contains(m),
            |m: Seq<char>|
                if modules.contains(m) {
                    if expiry_of(license, m) > now {
                        "running"@
                    } else {
                        "expired"@
                    }
                } else {
                    license.module_statuses[m]
                },
        ),
        ..license
    }
}

/// Runs a license, with each of some modules running or expired.
fn run(license: &LicenseRecord, modules: &Vec<String>, now: i64) -> (r: LicenseRecord)
    ensures
        r@ == running(license@, text::views(modules@), now as int),
{
    let mut out = license.duplicate();
    out.platform_status = "running".to_string();
    let mut statuses = license.module_statuses.duplicate();
    let ghost all = text::views(modules@);
    let mut i: usize = 0;
    assert(statuses@ =~= running(license@, all.take(0), now as int).module_statuses);
    while i < modules.len()
        invariant
            i <= modules@.len(),
            all == text::views(modules@),
            statuses@ == running(license@, all.take(i as int), now as int).module_statuses,
        decreases modules@.len() - i,
    {
        proof {
            text::lemma_take_contains(all, i as int);
            assert(all[i as int] == modules@[i as int]@);
        }
        let status = if module_expiry(license, modules[i].as_str()) > now {
            "running".to_string()
        } else {
            "expired".to_string()
        };
        statuses.insert(modules[i].clone(), status);
        assert(statuses@ =~= running(license@, all.take(i + 1), now as int).module_statuses);
        i = i + 1;
    }
    assert(all.take(all.len() as int) =~= all);
    out.module_statuses = statuses;
    out
}

/// What a license states, where it was verified and is the one that is asked
/// for.
pub open spec fn presented(
    license_id: Seq<char>,
    claims: Option<licenses::LicenseClaimsView>,
) -> Option<licenses::LicenseClaimsView> {
    match claims {
        Some(c) => if c.license_id == license_id {
            Some(c)
        } else {
            None
        },
        None => None,
    }
}

/// What a request to activate a license comes to: the license as it is then.
/// `claims` is what the license states, where it was verified.
pub open spec fn activation_outcome(
    license_id: Seq<char>,
    claims: Option<licenses::LicenseClaimsView>,
    records: Seq<licenses::LicenseRecordView>,
    now: int,
) -> Result<licenses::LicenseRecordView, rejection::RejectionView> {
    match presented(license_id, claims) {
        None => Err(rejection::refusal(rejection::UNAUTHORIZED, "许可证无效或已过期"@)),
        Some(c) => match lookup::found::<LicenseRecord>(records, license_id) {
            None => Err(rejection::refusal(rejection::NOT_FOUND, "许可证不存在"@)),
            Some(license) => if is_legacy(license) {
                Err(rejection::refusal(rejection::FORBIDDEN, "历史无订单许可证仅支持只读查看"@))
            } else if !is_live(license) {
                Err(rejection::refusal(rejection::FORBIDDEN, "许可证已销毁"@))
            } else if !is_newest(records, license) {
                Err(
                    rejection::refusal(
                        rejection::CONFLICT,
                        "当前签名不是该授权主体的最新许可证，请更新后再激活"@,
                    ),
                )
            } else {
                Ok(running(license, c.modules, now))
            },
        },
    }
}

/// Activates the license that is presented. `claims` is what it states, where
/// it was verified. A refused request changes nothing.
pub fn activate_license_at(
    license_id: &str,
    claims: &Option<LicenseClaims>,
    records: &mut Vec<LicenseRecord>,
    now: i64,
) -> (r: Result<LicenseStatus, Rejection>)
    ensures
        match activation_outcome(
            license_id@,
            text::opt_view(*claims),
            text::views(old(records)@),
            now as int,
        ) {
            Ok(activated) => {
                &&& r matches Ok(status) && status@ == plain_status(true)
                &&& text::views(final(records)@) == activated_records(
                    text::views(old(records)@),
                    activated,
                )
            },
            Err(refused) => {
                &&& r matches Err(e) && e@ == refused
                &&& text::views(final(records)@) == text::views(old(records)@)
            },
        },
{
    let stated = match claims {
        Some(c) => if text::same(c.license_id.as_str(), license_id) {
            c
        } else {
            return Err(refuse(rejection::UNAUTHORIZED, "许可证无效或已过期"));
        },
        None => {
            return Err(refuse(rejection::UNAUTHORIZED, "许可证无效或已过期"));
        },
    };
    assert(presented(license_id@, text::opt_view(*claims)) == Some(stated@));
    let license = match lookup::find(&*records, license_id) {
        Some(license) => license.duplicate(),
        None => {
            return Err(refuse(rejection::NOT_FOUND, "许可证不存在"));
        },
    };
    if text::same(license.linkage_status.as_str(), "legacy_unlinked") {
        return Err(refuse(rejection::FORBIDDEN, "历史无订单许可证仅支持只读查看"));
    }
    if text::same(license.platform_status.as_str(), "destroyed") {
        return Err(refuse(rejection::FORBIDDEN, "许可证已销毁"));
    }
    let activated = run(&license, &stated.modules, now);
    if !activate_latest_license_record(records, &activated) {
        return Err(
            refuse(
                rejection::CONFLICT,
                "当前签名不是该授权主体的最新许可证，请更新后再激活",
            ),
        );
    }
    Ok(LicenseStatus::simple(true))
}

/// Activates the license that is presented, now. `claims` is what it states,
/// where it was verified. A refused request changes nothing.
pub fn activate_license(
    license_id: &str,
    claims: &Option<LicenseClaims>,
    records: &mut Vec<LicenseRecord>,
) -> (r: Result<LicenseStatus, Rejection>)
    ensures
        exists|now: int|
            0 <= now <= clock::LAST_SECOND && match #[trigger] activation_outcome(
                license_id@,
                text::opt_view(*claims),
                text::views(old(records)@),
                now,
            ) {
                Ok(activated) => {
                    &&& r matches Ok(status) && status@ == plain_status(true)
                    &&& text::views(final(records)@) == activated_records(
                        text::views(old(records)@),
                        activated,
                    )
                },
                Err(refused) => {
                    &&& r matches Err(e) && e@ == refused
                    &&& text::views(final(records)@) == text::views(old(records)@)
                },
            },
{
    let now = clock::now();
    let ghost outcome = activation_outcome(
        license_id@,
        text::opt_view(*claims),
        text::views(records@),
        now as int,
    );
    activate_license_at(license_id, claims, records, now)
}

/// The status of the license that is presented. `claims` is what it states,
/// where it was verified. It is valid unless it is unknown or destroyed; a
/// newer license of the same customer comes with it.
pub open spec fn status_of(
    license_id: Seq<char>,
    claims: Option<licenses::LicenseClaimsView>,
    records: Seq<licenses::LicenseRecordView>,
    now: int,
) -> LicenseStatusView {
    match presented(license_id, claims) {
        None => plain_status(false),
        Some(c) => match lookup::found::<LicenseRecord>(records, license_id) {
            None => plain_status(false),
            Some(license) => if !is_live(license) {
                plain_status(false)
            } else {
                match newest(records, usable(c.subject, now)) {
                    Some(latest) => if latest.license_id != license_id {
                        LicenseStatusView {
                            valid: true,
                            latest_license: Some(latest.license),
                            latest_license_id: Some(latest.license_id),
                            latest_issued_at: Some(latest.issued_at),
                        }
                    } else {
                        plain_status(true)
                    },
                    None => plain_status(true),
                }
            },
        },
    }
}

/// The status of the license that is presented, at a second.
pub fn license_status_at(
    license_id: &str,
    claims: &Option<LicenseClaims>,
    records: &Vec<LicenseRecord>,
    now: i64,
) -> (r: LicenseStatus)
    ensures
        r@ == status_of(license_id@, text::opt_view(*claims), text::views(records@), now as int),
{
    let stated = match claims {
        Some(c) => if text::same(c.license_id.as_str(), license_id) {
            c
        } else {
            return LicenseStatus::simple(false);
        },
        None => {
            return LicenseStatus::simple(false);
        },
    };
    match lookup::find(records, license_id) {
        None => {
            return LicenseStatus::simple(false);
        },
        Some(license) => {
            if text::same(license.platform_status.as_str(), "destroyed") {
                return LicenseStatus::simple(false);
            }
        },
    }
    match newest_usable(records, stated.subject.as_str(), now) {
        Some(latest) => {
            if text::same(latest.license_id.as_str(), license_id) {
                return LicenseStatus::simple(true);
            }
            LicenseStatus {
                valid: true,
                latest_license: Some(latest.license.clone()),
                latest_license_id: Some(latest.license_id.clone()),
                latest_issued_at: Some(latest.issued_at),
            }
        },
        None => LicenseStatus::simple(true),
    }
}

/// The status of the license that is presented, now.
pub fn license_status(
    license_id: &str,
    claims: &Option<LicenseClaims>,
    records: &Vec<LicenseRecord>,
) -> (r: LicenseStatus)
    ensures
        exists|now: int|
            0 <= now <= clock::LAST_SECOND && r@ == #[trigger] status_of(
                license_id@,
                text::opt_view(*claims),
                text::views(records@),
                now,
            ),
{
    let now = clock::now();
    let ghost status = status_of(
        license_id@,
        text::opt_view(*claims),
        text::views(records@),
        now as int,
    );
    license_status_at(license_id, claims, records, now)
}

/// What is wrong with a request to destroy a license, if anything.
pub open spec fn destruction_flaw(
    license_id: Seq<char>,
    records: Seq<licenses::LicenseRecordView>,
) -> Option<rejection::RejectionView> {
    match lookup::found::<LicenseRecord>(records, license_id) {
        None => Some(rejection::refusal(rejection::NOT_FOUND, "许可证不存在"@)),
        Some(license) => if is_legacy(license) {
            Some(rejection::refusal(rejection::FORBIDDEN, "历史无订单许可证仅支持只读查看"@))
        } else {
            None
        },
    }
}

/// The licenses after the one with an identifier was destroyed.
pub open spec fn with_destroyed(
    records: Seq<licenses::LicenseRecordView>,
    license_id: Seq<char>,
) -> Seq<licenses::LicenseRecordView> {
    let gone = lookup::found::<LicenseRecord>(records, license_id)->Some_0;
    records.map_values(
        |l: licenses::LicenseRecordView|
            if l.license_id == license_id && !is_legacy(l) {
                licenses::LicenseRecordView {
                    platform_status: "destroyed"@,
                    module_statuses: destroyed(gone).module_statuses,
                    ..l
                }
            } else {
                l
            },
    )
}

/// Destroys the license with an identifier, for good. A refused request
/// changes nothing.
pub fn destroy_license_by_id(license_id: &str, records: &mut Vec<LicenseRecord>) -> (r: Result<
    LicenseStatus,
    Rejection,
>)
    ensures
        match destruction_flaw(license_id@, text::views(old(records)@)) {
            None => {
                &&& r matches Ok(status) && status@ == plain_status(false)
                &&& text::views(final(records)@) == with_destroyed(
                    text::views(old(records)@),
                    license_id@,
                )
            },
            Some(refused) => {
                &&& r matches Err(e) && e@ == refused
                &&& text::views(final(records)@) == text::views(old(records)@)
            },
        },
{
    let ghost before = text::views(records@);
    let gone = match lookup::find(&*records, license_id) {
        Some(license) => {
            if text::same(license.linkage_status.as_str(), "legacy_unlinked") {
                return Err(refuse(rejection::FORBIDDEN, "历史无订单许可证仅支持只读查看"));
            }
            destroy(license)
        },
        None => {
            return Err(refuse(rejection::NOT_FOUND, "许可证不存在"));
        },
    };
    let total: usize = records.len();
    let mut i: usize = 0;
    while i < total
        invariant
            i <= total,
            records@.len() == total,
            before.len() == total,
            forall|k: int|
                0 <= k < i ==> (#[trigger] records@[k])@ == (if before[k].license_id == license_id@
                    && !is_legacy(before[k]) {
                    licenses::LicenseRecordView {
                        platform_status: "destroyed"@,
                        module_statuses: gone@.module_statuses,
                        ..before[k]
                    }
                } else {
                    before[k]
                }),
            forall|k: int| i <= k < records@.len() ==> (#[trigger] records@[k])@ == before[k],
        decreases total - i,
    {
        let mut record = records[i].duplicate();
        assert(record@ == before[i as int]);
        if text::same(record.license_id.as_str(), license_id) && !text::same(
            record.linkage_status.as_str(),
            "legacy_unlinked",
        ) {
            record.platform_status = "destroyed".to_string();
            record.module_statuses = gone.module_statuses.duplicate();
        }
        records.set(i, record);
        i = i + 1;
    }
    assert(text::views(records@) =~= with_destroyed(before, license_id@));
    Ok(LicenseStatus::simple(false))
}

/// Whether a license takes the place of another: it has the same identifier or
/// the same order.
pub open spec fn collides(
    license: licenses::LicenseRecordView,
    other: licenses::LicenseRecordView,
) -> bool {
    is_linked(other) && (other.license_id == license.license_id || (license.order_id is Some
        && other.order_id == license.order_id))
}

/// Whether the order of a license waits for it: it is paid and has none.
pub open spec fn awaits_license(order: orders::OrderRecordView) -> bool {
    order.status == "paid"@ && order.license_id is None
}

/// Whether a license can be handed over: it is not there yet, and its order
/// waits for it.
pub open spec fn can_hand_over(
    license: licenses::LicenseRecordView,
    records: Seq<licenses::LicenseRecordView>,
    orders: Seq<orders::OrderRecordView>,
) -> bool {
    &&& forall|i: int| 0 <= i < records.len() ==> !collides(license, #[trigger] records[i])
    &&& license.order_id matches Some(order_id) && (orders::order_with(
        orders,
        order_id,
    ) matches Some(order) && awaits_license(order))
}

/// The orders after a license was handed over: its order is fulfilled.
pub open spec fn fulfilled(
    orders: Seq<orders::OrderRecordView>,
    order_id: Seq<char>,
    license_id: Seq<char>,
) -> Seq<orders::OrderRecordView> {
    orders.map_values(
        |o: orders::OrderRecordView|
            if o.order_id == order_id && awaits_license(o) {
                orders::OrderRecordView {
                    status: "fulfilled"@,
                    license_id: Some(license_id),
                    ..o
                }
            } else {
                o
            },
    )
}

/// Hands a license over: it is kept, and its order is fulfilled. A refused
/// license changes nothing.
pub fn insert_issued_license(
    license: LicenseRecord,
    records: &mut Vec<LicenseRecord>,
    orders: &mut Vec<OrderRecord>,
) -> (r: Result<(), Rejection>)
    ensures
        if can_hand_over(license@, text::views(old(records)@), text::views(old(orders)@)) {
            &&& r is Ok
            &&& text::views(final(records)@) == text::views(old(records)@).push(license@)
            &&& text::views(final(orders)@) == fulfilled(
                text::views(old(orders)@),
                license@.order_id->Some_0,
                license@.license_id,
            )
        } else {
            &&& r matches Err(e) && e@ == rejection::refusal(
                rejection::INTERNAL_SERVER_ERROR,
                "许可证和订单状态保存失败"@,
            )
            &&& text::views(final(records)@) == text::views(old(records)@)
            &&& text::views(final(orders)@) == text::views(old(orders)@)
        },
{
    let ghost had = text::views(records@);
    let ghost before = text::views(orders@);
    let mut i: usize = 0;
    while i < records.len()
        invariant
            i <= records@.len(),
            had == text::views(records@),
            had == text::views(old(records)@),
            before == text::views(old(orders)@),
            before == text::views(orders@),
            forall|k: int| 0 <= k < i ==> !collides(license@, #[trigger] had[k]),
        decreases records@.len() - i,
    {
        let other = &records[i];
        assert(had[i as int] == other@);
        let same_order = match (&license.order_id, &other.order_id) {
            (Some(a), Some(b)) => text::same(a.as_str(), b.as_str()),
            _ => false,
        };
        if text::same(other.linkage_status.as_str(), "linked") && (text::same(
            other.license_id.as_str(),
            license.license_id.as_str(),
        ) || same_order) {
            assert(collides(license@, had[i as int]));
            return Err(refuse(rejection::INTERNAL_SERVER_ERROR, "许可证和订单状态保存失败"));
        }
        i = i + 1;
    }
    let order_id = match &license.order_id {
        Some(id) => id.clone(),
        None => {
            return Err(refuse(rejection::INTERNAL_SERVER_ERROR, "许可证和订单状态保存失败"));
        },
    };
    match lookup::find(&*orders, order_id.as_str()) {
        Some(order) => {
            if !text::same(order.status.as_str(), "paid") || order.license_id.is_some() {
                return Err(refuse(rejection::INTERNAL_SERVER_ERROR, "许可证和订单状态保存失败"));
            }
        },
        None => {
            return Err(refuse(rejection::INTERNAL_SERVER_ERROR, "许可证和订单状态保存失败"));
        },
    }
    let total: usize = orders.len();
    let mut j: usize = 0;
    while j < total
        invariant
            j <= total,
            orders@.len() == total,
            before.len() == total,
            forall|k: int|
                0 <= k < j ==> (#[trigger] orders@[k])@ == (if before[k].order_id == order_id@
                    && awaits_license(before[k]) {
                    orders::OrderRecordView {
                        status: "fulfilled"@,
                        license_id: Some(license@.license_id),
                        ..before[k]
                    }
                } else {
                    before[k]
                }),
            forall|k: int| j <= k < orders@.len() ==> (#[trigger] orders@[k])@ == before[k],
        decreases total - j,
    {
        let mut order = orders[j].duplicate();
        assert(order@ == before[j as int]);
        if text::same(order.order_id.as_str(), order_id.as_str()) && text::same(
            order.status.as_str(),
            "paid",
        ) && order.license_id.is_none() {
            order.status = "fulfilled".to_string();
            order.license_id = Some(license.license_id.clone());
        }
        orders.set(j, order);
        j = j + 1;
    }
    assert(text::views(orders@) =~= fulfilled(before, order_id@, license@.license_id));
    proof {
        text::lemma_views_push(records@, license);
    }
    records.push(license);
    Ok(())
}

/// A license is issued only for an order that is paid, and once it was handed
/// over the order takes no second one.
pub proof fn law_order_is_licensed_once(
    request: licenses::IssueLicenseRequestView,
    orders: Seq<orders::OrderRecordView>,
    license_id: Seq<char>,
)
    requires
        licenses::license_order(request, orders) is Ok,
    ensures
        licenses::license_order(request, orders)->Ok_0.status == "paid"@,
        licenses::license_order(
            request,
            fulfilled(orders, text::trimmed(request.order_id), license_id),
        ) is Err,
{
    reveal_strlit("paid");
    reveal_strlit("fulfilled");
    assert("paid"@.len() != "fulfilled"@.len());
    let order_id = text::trimmed(request.order_id);
    lemma_fulfilled(orders, order_id, license_id);
}

/// The order of a license that was handed over is fulfilled.
proof fn lemma_fulfilled(
    orders: Seq<orders::OrderRecordView>,
    order_id: Seq<char>,
    license_id: Seq<char>,
)
    ensures
        orders::order_with(orders, order_id) matches Some(order) ==> orders::order_with(
            fulfilled(orders, order_id, license_id),
            order_id,
        ) == Some(
            if awaits_license(order) {
                orders::OrderRecordView {
                    status: "fulfilled"@,
                    license_id: Some(license_id),
                    ..order
                }
            } else {
                order
            },
        ),
    decreases orders.len(),
{
    if orders.len() > 0 {
        let after = fulfilled(orders, order_id, license_id);
        if orders[0].order_id != order_id {
            assert(after[0] == orders[0]);
            lemma_fulfilled(orders.skip(1), order_id, license_id);
            assert(after.skip(1) =~= fulfilled(orders.skip(1), order_id, license_id));
        }
    }
}

/// The record of a license can be handed over once, and then no more: neither
/// again nor for the same order.
pub proof fn law_license_is_handed_over_once(
    license: licenses::LicenseRecordView,
    second: licenses::LicenseRecordView,
    records: Seq<licenses::LicenseRecordView>,
    orders: Seq<orders::OrderRecordView>,
)
    requires
        can_hand_over(license, records, orders),
        is_linked(license),
        second.order_id == license.order_id,
    ensures
        !can_hand_over(
            second,
            records.push(license),
            fulfilled(orders, license.order_id->Some_0, license.license_id),
        ),
{
    assert(collides(second, records.push(license)[records.len() as int]));
}

/// Once a license is activated it is the only one of its customer in force.
pub proof fn law_activation_leaves_one_in_force(
    license_id: Seq<char>,
    claims: Option<licenses::LicenseClaimsView>,
    records: Seq<licenses::LicenseRecordView>,
    now: int,
    i: int,
)
    requires
        activation_outcome(license_id, claims, records, now) is Ok,
        0 <= i < records.len(),
    ensures
        ({
            let activated = activation_outcome(license_id, claims, records, now)->Ok_0;
            let after = activated_records(records, activated);
            in_force(activated.subject)(after[i]) <==> in_force(activated.subject)(records[i])
                && records[i].license_id == license_id
        }),
        ({
            let activated = activation_outcome(license_id, claims, records, now)->Ok_0;
            let after = activated_records(records, activated);
            in_force(activated.subject)(after[i]) ==> after[i].platform_status == "running"@
        }),
{
    reveal_strlit("running");
    reveal_strlit("destroyed");
    assert("running"@.len() != "destroyed"@.len());
    lookup::lemma_found::<LicenseRecord>(records, license_id);
}

/// Activation destroys only licenses of the same customer.
pub proof fn law_activation_keeps_other_customers(
    license_id: Seq<char>,
    claims: Option<licenses::LicenseClaimsView>,
    records: Seq<licenses::LicenseRecordView>,
    now: int,
    i: int,
)
    requires
        activation_outcome(license_id, claims, records, now) is Ok,
        0 <= i < records.len(),
        records[i].license_id != license_id,
        records[i].subject != activation_outcome(license_id, claims, records, now)->Ok_0.subject,
    ensures
        activated_records(records, activation_outcome(license_id, claims, records, now)->Ok_0)[i]
            == records[i],
{
    lookup::lemma_found::<LicenseRecord>(records, license_id);
}

/// A license that is not the newest of its customer in force is refused.
pub proof fn law_older_license_is_refused(
    license_id: Seq<char>,
    claims: Option<licenses::LicenseClaimsView>,
    records: Seq<licenses::LicenseRecordView>,
    now: int,
    newer: int,
)
    requires
        lookup::found::<LicenseRecord>(records, license_id) is Some,
        0 <= newer < records.len(),
        in_force(lookup::found::<LicenseRecord>(records, license_id)->Some_0.subject)(
            records[newer],
        ),
        records[newer].issued_at > lookup::found::<LicenseRecord>(
            records,
            license_id,
        )->Some_0.issued_at,
        forall|i: int, j: int|
            0 <= i < records.len() && 0 <= j < records.len() && (#[trigger] records[i]).license_id
                == (#[trigger] records[j]).license_id ==> i == j,
    ensures
        activation_outcome(license_id, claims, records, now) is Err,
{
    let license = lookup::found::<LicenseRecord>(records, license_id)->Some_0;
    lookup::lemma_found::<LicenseRecord>(records, license_id);
    let wanted = in_force(license.subject);
    lemma_newest(records, wanted);
    match newest(records, wanted) {
        Some(latest) => {
            let k = records.index_of(latest);
            let m = records.index_of(license);
            assert(records[k] == latest);
            assert(records[m] == license);
            assert(is_as_new(latest, records[newer]));
            if latest.license_id == license_id {
                assert(k == m);
            }
        },
        None => {},
    }
}

/// A license that was destroyed stays so: it can be activated no more, and is
/// not valid.
pub proof fn law_destroyed_is_for_good(
    license_id: Seq<char>,
    claims: Option<licenses::LicenseClaimsView>,
    records: Seq<licenses::LicenseRecordView>,
    now: int,
)
    requires
        destruction_flaw(license_id, records) is None,
    ensures
        activation_outcome(license_id, claims, with_destroyed(records, license_id), now) is Err,
        status_of(license_id, claims, with_destroyed(records, license_id), now) == plain_status(
            false,
        ),
{
    lemma_destroyed(records, license_id, destroyed(
        lookup::found::<LicenseRecord>(records, license_id)->Some_0,
    ).module_statuses);
    assert(with_destroyed(records, license_id) =~= marked_destroyed(
        records,
        license_id,
        destroyed(lookup::found::<LicenseRecord>(records, license_id)->Some_0).module_statuses,
    ));
}

/// Licenses of which those with an identifier are destroyed.
spec fn marked_destroyed(
    records: Seq<licenses::LicenseRecordView>,
    license_id: Seq<char>,
    statuses: Map<Seq<char>, Seq<char>>,
) -> Seq<licenses::LicenseRecordView> {
    records.map_values(
        |l: licenses::LicenseRecordView|
            if l.license_id == license_id && !is_legacy(l) {
                licenses::LicenseRecordView {
                    platform_status: "destroyed"@,
                    module_statuses: statuses,
                    ..l
                }
            } else {
                l
            },
    )
}

proof fn lemma_destroyed(
    records: Seq<licenses::LicenseRecordView>,
    license_id: Seq<char>,
    statuses: Map<Seq<char>, Seq<char>>,
)
    ensures
        lookup::found::<LicenseRecord>(records, license_id) matches Some(license) ==> (!is_legacy(
            license,
        ) ==> (lookup::found::<LicenseRecord>(
            marked_destroyed(records, license_id, statuses),
            license_id,
        ) matches Some(gone) && !is_live(gone))),
    decreases records.len(),
{
    if records.len() > 0 {
        let after = marked_destroyed(records, license_id, statuses);
        if records[0].license_id != license_id {
            assert(after[0] == records[0]);
            lemma_destroyed(records.skip(1), license_id, statuses);
            assert(after.skip(1) =~= marked_destroyed(records.skip(1), license_id, statuses));
        }
    }
}

/// A license that activation destroyed is destroyed for good too: it can be
/// activated no more.
pub proof fn law_replaced_license_is_refused(
    license_id: Seq<char>,
    claims: Option<licenses::LicenseClaimsView>,
    old_id: Seq<char>,
    old_claims: Option<licenses::LicenseClaimsView>,
    records: Seq<licenses::LicenseRecordView>,
    now: int,
)
    requires
        activation_outcome(license_id, claims, records, now) is Ok,
        old_id != license_id,
        lookup::found::<LicenseRecord>(records, old_id) matches Some(replaced)
            && replaced.subject == activation_outcome(
            license_id,
            claims,
            records,
            now,
        )->Ok_0.subject && is_linked(replaced),
    ensures
        activation_outcome(
            old_id,
            old_claims,
            activated_records(records, activation_outcome(license_id, claims, records, now)->Ok_0),
            now,
        ) is Err,
{
    let activated = activation_outcome(license_id, claims, records, now)->Ok_0;
    lookup::lemma_found::<LicenseRecord>(records, license_id);
    lookup::lemma_found::<LicenseRecord>(records, old_id);
    lemma_found_after_activation(records, activated, old_id);
}

proof fn lemma_found_after_activation(
    records: Seq<licenses::LicenseRecordView>,
    activated: licenses::LicenseRecordView,
    id: Seq<char>,
)
    ensures
        lookup::found::<LicenseRecord>(records, id) matches Some(license)
            ==> lookup::found::<LicenseRecord>(activated_records(records, activated), id) == Some(
            after_activation(license, activated),
        ),
    decreases records.len(),
{
    if records.len() > 0 {
        let after = activated_records(records, activated);
        assert(after[0] == after_activation(records[0], activated));
        if records[0].license_id != id {
            lemma_found_after_activation(records.skip(1), activated, id);
            assert(after.skip(1) =~= activated_records(records.skip(1), activated));
        }
    }
}

/// A license without an order can only be read: it is neither activated nor
/// destroyed, and both are refused alike.
pub proof fn law_legacy_license_is_read_only(
    license_id: Seq<char>,
    claims: Option<licenses::LicenseClaimsView>,
    records: Seq<licenses::LicenseRecordView>,
    now: int,
)
    requires
        lookup::found::<LicenseRecord>(records, license_id) matches Some(license) && is_legacy(
            license,
        ),
        presented(license_id, claims) is Some,
    ensures
        activation_outcome(license_id, claims, records, now) == Err::<
            licenses::LicenseRecordView,
            rejection::RejectionView,
        >(rejection::refusal(rejection::FORBIDDEN, "历史无订单许可证仅支持只读查看"@)),
        destruction_flaw(license_id, records) == Some(
            rejection::refusal(rejection::FORBIDDEN, "历史无订单许可证仅支持只读查看"@),
        ),
{
}

/// A license of which a newer one can be used is told of the newest.
pub proof fn law_newer_license_is_found(
    license_id: Seq<char>,
    claims: Option<licenses::LicenseClaimsView>,
    records: Seq<licenses::LicenseRecordView>,
    now: int,
    newer: int,
)
    requires
        status_of(license_id, claims, records, now).valid,
        0 <= newer < records.len(),
        usable(presented(license_id, claims)->Some_0.subject, now)(records[newer]),
        forall|i: int|
            0 <= i < records.len() && (#[trigger] records[i]).license_id == license_id
                ==> !is_as_new(records[i], records[newer]),
    ensures
        status_of(license_id, claims, records, now).latest_license_id matches Some(id) && id
            != license_id,
{
    let wanted = usable(presented(license_id, claims)->Some_0.subject, now);
    lemma_newest(records, wanted);
    let latest = newest(records, wanted)->Some_0;
    let k = records.index_of(latest);
    assert(is_as_new(records[k], records[newer]));
}

/// A license is listed as it is recorded, with a title for each of its modules and
/// a status as of the second.
pub proof fn law_license_is_listed_as_recorded(license: licenses::LicenseRecordView, now: int)
    ensures
        ({
            let shown = listed(license, now);
            &&& shown.license == license.license
            &&& shown.license_id == license.license_id
            &&& shown.subject == license.subject
            &&& shown.customer_name_snapshot == license.customer_name_snapshot
            &&& shown.order_id == license.order_id
            &&& shown.linkage_status == license.linkage_status
            &&& shown.modules == license.modules
            &&& shown.issued_at == license.issued_at
            &&& shown.expires_at == license.expires_at
            &&& shown.module_expires_at == license.module_expires_at
            &&& shown.ai_employees == license.ai_employees
            &&& license.platform_status == "destroyed"@ ==> shown.platform_status == "destroyed"@
            &&& license.platform_status != "destroyed"@ && license.expires_at <= now
                ==> shown.platform_status == "expired"@
            &&& license.platform_status != "destroyed"@ && license.expires_at > now
                ==> shown.platform_status == license.platform_status
            &&& forall|m: Seq<char>| #[trigger]
                shown.module_titles.contains_key(m) <==> license.modules.contains(m)
            &&& forall|m: Seq<char>|
                license.modules.contains(m) ==> #[trigger] shown.module_titles[m] == (if m
                    == "platform"@ {
                    "低代码平台"@
                } else if m == "communication"@ {
                    "通讯模型"@
                } else {
                    m
                })
            &&& forall|m: Seq<char>| #[trigger]
                shown.module_statuses.contains_key(m) <==> license.modules.contains(m)
        }),
{
}

/// A module of a license that has not ended is listed as expired once its own
/// expiry is reached, or that of the license where it has none, and until then with
/// the status that it was given, or else as not activated. The platform has the
/// status of the license.
pub proof fn law_module_is_listed_until_it_expires(
    license: licenses::LicenseRecordView,
    module: Seq<char>,
    now: int,
)
    requires
        license.modules.contains(module),
        license.platform_status != "destroyed"@,
        license.platform_status != "expired"@,
        license.expires_at > now,
    ensures
        ({
            let status = listed(license, now).module_statuses[module];
            if module == "platform"@ {
                status == license.platform_status
            } else if license.module_expires_at.contains_key(module)
                && license.module_expires_at[module] <= now {
                status == "expired"@
            } else if license.module_statuses.contains_key(module) {
                status == license.module_statuses[module]
            } else {
                status == "unactivated"@
            }
        }),
{
}

/// An AI employee of a license that has not ended is listed as expired once its own
/// expiry is reached, and until then as running where the license runs, or else as
/// not activated. This is of a license with each of its AI employees once.
pub proof fn law_employee_is_listed_until_it_expires(
    license: licenses::LicenseRecordView,
    i: int,
    now: int,
)
    requires
        0 <= i < license.ai_employees.len(),
        forall|j: int, k: int|
            0 <= j < k < license.ai_employees.len() ==> (#[trigger] license.ai_employees[j]).id != (
            #[trigger] license.ai_employees[k]).id,
        license.platform_status != "destroyed"@,
        license.platform_status != "expired"@,
        license.expires_at > now,
    ensures
        ({
            let shown = listed(license, now);
            let employee = license.ai_employees[i];
            &&& shown.ai_employee_statuses.contains_key(employee.id)
            &&& shown.ai_employee_statuses[employee.id] == (if employee.expires_at <= now {
                "expired"@
            } else if license.platform_status == "running"@ {
                "running"@
            } else {
                "unactivated"@
            })
        }),
{
    lemma_employee_statuses(license.ai_employees, license.platform_status, now, i);
}

proof fn lemma_employee_statuses(
    employees: Seq<licenses::AiEmployeeEntitlementView>,
    platform: Seq<char>,
    now: int,
    i: int,
)
    requires
        0 <= i < employees.len(),
        forall|j: int, k: int|
            0 <= j < k < employees.len() ==> (#[trigger] employees[j]).id != (
            #[trigger] employees[k]).id,
    ensures
        employee_statuses(employees, platform, now).contains_key(employees[i].id),
        employee_statuses(employees, platform, now)[employees[i].id] == listed_employee_status(
            platform,
            employees[i].expires_at as int,
            now,
        ),
    decreases employees.len(),
{
    let init = employees.drop_last();
    if i < init.len() {
        assert forall|j: int, k: int| 0 <= j < k < init.len() implies (#[trigger] init[j]).id != (
        #[trigger] init[k]).id by {
            assert(employees[j].id != employees[k].id);
        }
        lemma_employee_statuses(init, platform, now, i);
        assert(init[i] == employees[i]);
        assert(employees[i].id != employees[employees.len() - 1].id);
    }
}

/// Licenses are listed with the latest issued first, and all of them.
pub proof fn law_licenses_are_listed_newest_first(records: Seq<licenses::LicenseRecordView>)
    ensures
        newest_first(records).to_multiset() == records.to_multiset(),
        forall|i: int, j: int|
            0 <= i < j < newest_first(records).len() ==> (#[trigger] newest_first(
                records,
            )[i]).issued_at >= (#[trigger] newest_first(records)[j]).issued_at,
{
    sorting::lemma_sorted_by_rank::<LicenseRecord>(records);
    let sorted = newest_first(records);
    assert forall|i: int, j: int| 0 <= i < j < sorted.len() implies (
    #[trigger] sorted[i]).issued_at >= (#[trigger] sorted[j]).issued_at by {
        assert(<LicenseRecord as sorting::Ranked>::rank_le(sorted[i], sorted[j]));
    }
}

/// Whether no license of a customer that is in force is newer than one: none was
/// issued later, and none at the same second under a later identifier.
pub open spec fn is_newest_in_force(
    records: Seq<licenses::LicenseRecordView>,
    license: licenses::LicenseRecordView,
) -> bool {
    forall|i: int|
        0 <= i < records.len() && (#[trigger] records[i]).subject == license.subject
            && records[i].linkage_status == "linked"@ && records[i].platform_status
            != "destroyed"@ ==> {
            ||| records[i].issued_at < license.issued_at
            ||| records[i].issued_at == license.issued_at && text::text_le(
                records[i].license_id,
                license.license_id,
            )
        }
}

/// A license that is activated runs, and so does each module that it states unless
/// the module has expired. It is otherwise what it was, it belongs to an order, was
/// not destroyed, and none of its customer in force is newer.
pub proof fn law_activated_license_runs(
    license_id: Seq<char>,
    claims: Option<licenses::LicenseClaimsView>,
    records: Seq<licenses::LicenseRecordView>,
    now: int,
)
    requires
        forall|i: int, j: int|
            0 <= i < records.len() && 0 <= j < records.len() && (#[trigger] records[i]).license_id
                == (#[trigger] records[j]).license_id ==> i == j,
    ensures
        activation_outcome(license_id, claims, records, now) matches Ok(activated) ==> {
            let stated = claims->Some_0.modules;
            &&& claims is Some
            &&& claims->Some_0.license_id == license_id
            &&& activated.license_id == license_id
            &&& activated.platform_status == "running"@
            &&& forall|m: Seq<char>| #[trigger]
                stated.contains(m) ==> activated.module_statuses.contains_key(m)
                    && activated.module_statuses[m] == (if (
                if activated.module_expires_at.contains_key(m) {
                    activated.module_expires_at[m]
                } else {
                    activated.expires_at
                }) > now {
                    "running"@
                } else {
                    "expired"@
                })
            &&& exists|i: int|
                {
                    &&& 0 <= i < records.len()
                    &&& (#[trigger] records[i]) == (licenses::LicenseRecordView {
                        platform_status: records[i].platform_status,
                        module_statuses: records[i].module_statuses,
                        ..activated
                    })
                    &&& records[i].linkage_status == "linked"@
                    &&& records[i].platform_status != "destroyed"@
                    &&& forall|m: Seq<char>| #[trigger]
                        records[i].module_statuses.contains_key(m) && !stated.contains(m)
                            ==> activated.module_statuses.contains_key(m)
                            && activated.module_statuses[m] == records[i].module_statuses[m]
                    &&& is_newest_in_force(records, records[i])
                }
        },
{
    match activation_outcome(license_id, claims, records, now) {
        Ok(activated) => {
            lookup::lemma_found::<LicenseRecord>(records, license_id);
            let license = lookup::found::<LicenseRecord>(records, license_id)->Some_0;
            let i = records.index_of(license);
            assert(records[i] == license);
            let wanted = in_force(license.subject);
            lemma_newest(records, wanted);
            let latest = newest(records, wanted)->Some_0;
            let k = records.index_of(latest);
            assert(records[k] == latest);
            assert(k == i);
            assert(records[i] == (licenses::LicenseRecordView {
                platform_status: records[i].platform_status,
                module_statuses: records[i].module_statuses,
                ..activated
            }));
            assert forall|j: int|
                0 <= j < records.len() && (#[trigger] records[j]).subject == license.subject
                    && records[j].linkage_status == "linked"@ && records[j].platform_status
                    != "destroyed"@ implies {
                ||| records[j].issued_at < license.issued_at
                ||| records[j].issued_at == license.issued_at && text::text_le(
                    records[j].license_id,
                    license.license_id,
                )
            } by {
                assert(wanted(records[j]));
                assert(is_as_new(latest, records[j]));
            }
        },
        Err(_) => {},
    }
}

/// A license that was verified, is there, belongs to an order, was not destroyed
/// and has none of its customer in force that is newer can be activated.
pub proof fn law_newest_license_can_be_activated(
    license_id: Seq<char>,
    claims: licenses::LicenseClaimsView,
    records: Seq<licenses::LicenseRecordView>,
    now: int,
    i: int,
)
    requires
        forall|j: int, k: int|
            0 <= j < records.len() && 0 <= k < records.len() && (#[trigger] records[j]).license_id
                == (#[trigger] records[k]).license_id ==> j == k,
        0 <= i < records.len(),
        records[i].license_id == license_id,
        claims.license_id == license_id,
        records[i].linkage_status == "linked"@,
        records[i].platform_status != "destroyed"@,
        is_newest_in_force(records, records[i]),
    ensures
        activation_outcome(license_id, Some(claims), records, now) is Ok,
{
    reveal_strlit("linked");
    reveal_strlit("legacy_unlinked");
    assert("linked"@.len() != "legacy_unlinked"@.len());
    let license = records[i];
    assert forall|j: int| 0 <= j < i implies <LicenseRecord as lookup::Keyed>::key_of(#[trigger] records[j])
        != license_id by {
        if records[j].license_id == records[i].license_id {
            assert(j == i);
        }
    }
    lookup::law_first_with_key_is_found::<LicenseRecord>(records, license_id, i);
    let wanted = in_force(license.subject);
    lemma_newest(records, wanted);
    assert(wanted(records[i]));
    let latest = newest(records, wanted)->Some_0;
    assert(is_as_new(latest, license));
    let k = records.index_of(latest);
    assert(records[k] == latest);
    assert(records[k].subject == license.subject);
    if latest.license_id != license_id {
        text::lemma_text_le_antisymmetric(latest.license_id, license.license_id);
    }
}

/// The activation of a license gives it its new statuses, destroys every other one
/// of its customer that was in force, and leaves all others alone.
pub proof fn law_activation_replaces_the_others(
    records: Seq<licenses::LicenseRecordView>,
    activated: licenses::LicenseRecordView,
    i: int,
)
    requires
        0 <= i < records.len(),
    ensures
        activated_records(records, activated).len() == records.len(),
        ({
            let before = records[i];
            let after = activated_records(records, activated)[i];
            let was_in_force = before.linkage_status == "linked"@ && before.platform_status
                != "destroyed"@;
            &&& after == (licenses::LicenseRecordView {
                platform_status: after.platform_status,
                module_statuses: after.module_statuses,
                ..before
            })
            &&& was_in_force && before.license_id == activated.license_id ==> after.platform_status
                == activated.platform_status && after.module_statuses == activated.module_statuses
            &&& was_in_force && before.license_id != activated.license_id && before.subject
                == activated.subject ==> after.platform_status == "destroyed"@ && forall|
                m: Seq<char>,
            | #[trigger]
                before.modules.contains(m) ==> after.module_statuses.contains_key(m)
                    && after.module_statuses[m] == "destroyed"@
            &&& !was_in_force || (before.license_id != activated.license_id && before.subject
                != activated.subject) ==> after == before
        }),
{
}

/// A license is valid exactly where it was verified as the one that is asked for,
/// and is there and not destroyed. The newest license that its customer can use
/// comes with the answer where that is another one: it belongs to the customer, is
/// not one without an order, was not destroyed and has not expired.
pub proof fn law_status_tells_of_the_newest_license(
    license_id: Seq<char>,
    claims: Option<licenses::LicenseClaimsView>,
    records: Seq<licenses::LicenseRecordView>,
    now: int,
)
    ensures
        status_of(license_id, claims, records, now).valid <==> {
            &&& claims matches Some(c) && c.license_id == license_id
            &&& lookup::found::<LicenseRecord>(records, license_id) matches Some(record)
                && record.platform_status != "destroyed"@
        },
        ({
            let status = status_of(license_id, claims, records, now);
            &&& status.latest_license_id is Some <==> status.latest_license is Some
            &&& status.latest_license_id is Some <==> status.latest_issued_at is Some
            &&& status.latest_license_id matches Some(id) ==> {
                &&& status.valid
                &&& id != license_id
                &&& exists|i: int|
                    {
                        &&& 0 <= i < records.len()
                        &&& (#[trigger] records[i]).license_id == id
                        &&& status.latest_license == Some(records[i].license)
                        &&& status.latest_issued_at == Some(records[i].issued_at)
                        &&& is_usable_by(records[i], claims->Some_0.subject, now)
                        &&& forall|j: int|
                            0 <= j < records.len() && is_usable_by(
                                #[trigger] records[j],
                                claims->Some_0.subject,
                                now,
                            ) ==> records[j].issued_at <= records[i].issued_at
                    }
            }
            &&& status.valid && status.latest_license_id is None ==> forall|j: int|
                0 <= j < records.len() && is_usable_by(
                    #[trigger] records[j],
                    claims->Some_0.subject,
                    now,
                ) ==> exists|k: int|
                    0 <= k < records.len() && (#[trigger] records[k]).license_id == license_id
                        && records[k].issued_at >= records[j].issued_at
        }),
{
    match claims {
        Some(c) => {
            let wanted = usable(c.subject, now);
            lemma_newest(records, wanted);
            assert forall|j: int| 0 <= j < records.len() implies wanted(#[trigger] records[j])
                == is_usable_by(records[j], c.subject, now) by {}
            match newest(records, wanted) {
                Some(latest) => {
                    let i = records.index_of(latest);
                    assert(records[i] == latest);
                    assert(is_usable_by(records[i], c.subject, now));
                    assert forall|j: int|
                        0 <= j < records.len() && is_usable_by(
                            #[trigger] records[j],
                            c.subject,
                            now,
                        ) implies records[j].issued_at <= records[i].issued_at by {
                        assert(is_as_new(latest, records[j]));
                    }
                },
                None => {},
            }
        },
        None => {},
    }
}

/// Whether a license is one of a customer that can be used at a second: not one
/// without an order, not destroyed and not expired.
pub open spec fn is_usable_by(
    license: licenses::LicenseRecordView,
    subject: Seq<char>,
    now: int,
) -> bool {
    &&& license.subject == subject
    &&& license.linkage_status != "legacy_unlinked"@
    &&& license.platform_status != "destroyed"@
    &&& license.expires_at > now
}

/// Destroying a license marks it and each of its modules as destroyed and changes
/// no other license. It is refused exactly where the license is not there or
/// belongs to no order.
pub proof fn law_destruction_marks_one_license(
    license_id: Seq<char>,
    records: Seq<licenses::LicenseRecordView>,
    i: int,
)
    requires
        0 <= i < records.len(),
        forall|j: int, k: int|
            0 <= j < records.len() && 0 <= k < records.len() && (#[trigger] records[j]).license_id
                == (#[trigger] records[k]).license_id ==> j == k,
    ensures
        destruction_flaw(license_id, records) is None <==> (lookup::found::<LicenseRecord>(
            records,
            license_id,
        ) matches Some(license) && license.linkage_status != "legacy_unlinked"@),
        with_destroyed(records, license_id).len() == records.len(),
        records[i].license_id != license_id ==> with_destroyed(records, license_id)[i]
            == records[i],
        records[i].license_id == license_id && records[i].linkage_status != "legacy_unlinked"@ ==> {
            let after = with_destroyed(records, license_id)[i];
            &&& after.platform_status == "destroyed"@
            &&& forall|m: Seq<char>| #[trigger]
                records[i].modules.contains(m) ==> after.module_statuses.contains_key(m)
                    && after.module_statuses[m] == "destroyed"@
            &&& after == (licenses::LicenseRecordView {
                platform_status: after.platform_status,
                module_statuses: after.module_statuses,
                ..records[i]
            })
        },
{
    if records[i].license_id == license_id {
        assert forall|j: int| 0 <= j < i implies <LicenseRecord as lookup::Keyed>::key_of(#[trigger] records[j])
            != license_id by {
            if records[j].license_id == records[i].license_id {
                assert(j == i);
            }
        }
        lookup::law_first_with_key_is_found::<LicenseRecord>(records, license_id, i);
    }
}

/// A license is handed over exactly where its order is there, paid and without a
/// license, and no license that belongs to an order has its identifier or its
/// order.
pub proof fn law_license_is_handed_over_for_a_paid_order(
    license: licenses::LicenseRecordView,
    records: Seq<licenses::LicenseRecordView>,
    orders: Seq<orders::OrderRecordView>,
)
    ensures
        can_hand_over(license, records, orders) <==> {
            &&& license.order_id matches Some(id) && (lookup::found::<orders::OrderRecord>(
                orders,
                id,
            ) matches Some(order) && order.status == "paid"@ && order.license_id is None)
            &&& forall|i: int|
                0 <= i < records.len() && (#[trigger] records[i]).linkage_status == "linked"@ ==> {
                    &&& records[i].license_id != license.license_id
                    &&& records[i].order_id != license.order_id
                }
        },
{
    if can_hand_over(license, records, orders) {
        assert forall|i: int|
            0 <= i < records.len() && (#[trigger] records[i]).linkage_status
                == "linked"@ implies {
            &&& records[i].license_id != license.license_id
            &&& records[i].order_id != license.order_id
        } by {
            assert(!collides(license, records[i]));
        }
    }
}

/// Once a license is handed over its order is fulfilled and names the license. It
/// is otherwise what it was, and no other order changes.
pub proof fn law_licensed_order_is_fulfilled(
    orders: Seq<orders::OrderRecordView>,
    order_id: Seq<char>,
    license_id: Seq<char>,
    i: int,
)
    requires
        0 <= i < orders.len(),
    ensures
        fulfilled(orders, order_id, license_id).len() == orders.len(),
        fulfilled(orders, order_id, license_id)[i] == (if orders[i].order_id == order_id
            && orders[i].status == "paid"@ && orders[i].license_id is None {
            orders::OrderRecordView {
                status: "fulfilled"@,
                license_id: Some(license_id),
                ..orders[i]
            }
        } else {
            orders[i]
        }),
{
}

/// An activation that is refused says why: the license was not verified, it is not
/// there, it belongs to no order or was destroyed, or a newer one is in force. A
/// destruction that is refused says whether the license is there.
pub proof fn law_refused_activation_says_why(
    license_id: Seq<char>,
    claims: Option<licenses::LicenseClaimsView>,
    records: Seq<licenses::LicenseRecordView>,
    now: int,
)
    ensures
        activation_outcome(license_id, claims, records, now) matches Err(e) ==> {
            let verified = claims matches Some(c) && c.license_id == license_id;
            let found = lookup::found::<LicenseRecord>(records, license_id);
            &&& !verified ==> e.status == 401
            &&& verified && found is None ==> e.status == 404
            &&& verified && (found matches Some(license) && (license.linkage_status
                == "legacy_unlinked"@ || license.platform_status == "destroyed"@)) ==> e.status
                == 403
            &&& verified && (found matches Some(license) && license.linkage_status
                != "legacy_unlinked"@ && license.platform_status != "destroyed"@) ==> e.status
                == 409
        },
        destruction_flaw(license_id, records) matches Some(e) ==> {
            &&& lookup::found::<LicenseRecord>(records, license_id) is None ==> e.status == 404
            &&& lookup::found::<LicenseRecord>(records, license_id) is Some ==> e.status == 403
        },
{
}

} // verus!
