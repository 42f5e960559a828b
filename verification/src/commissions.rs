//! Service providers: commission rules, the ledger of commissions, and its
//! settlement.

use vstd::prelude::*;

use crate::accounts::ProviderOwned;
use crate::clock;
use crate::copying::Duplicate;
use crate::ids;
use crate::lookup;
use crate::lookup::Keyed;
use crate::rejection;
use crate::rejection::{refuse, Rejection};
use crate::text;

verus! {

/// A service provider.
pub struct ProviderRecord {
    pub provider_id: String,
    pub name: String,
    pub contact_name: String,
    pub contact_phone: String,
    pub status: String,
    pub created_at: i64,
}

/// What a `ProviderRecord` holds.
#[verifier::ext_equal]
pub struct ProviderRecordView {
    pub provider_id: Seq<char>,
    pub name: Seq<char>,
    pub contact_name: Seq<char>,
    pub contact_phone: Seq<char>,
    pub status: Seq<char>,
    pub created_at: i64,
}

impl View for ProviderRecord {
    type V = ProviderRecordView;

    open spec fn view(&self) -> ProviderRecordView {
        ProviderRecordView {
            provider_id: self.provider_id@,
            name: self.name@,
            contact_name: self.contact_name@,
            contact_phone: self.contact_phone@,
            status: self.status@,
            created_at: self.created_at,
        }
    }
}

/// A request for a new service provider.
pub struct SaveProviderRequest {
    pub name: String,
    pub contact_name: String,
    pub contact_phone: String,
}

/// What a `SaveProviderRequest` holds.
#[verifier::ext_equal]
pub struct SaveProviderRequestView {
    pub name: Seq<char>,
    pub contact_name: Seq<char>,
    pub contact_phone: Seq<char>,
}

impl View for SaveProviderRequest {
    type V = SaveProviderRequestView;

    open spec fn view(&self) -> SaveProviderRequestView {
        SaveProviderRequestView {
            name: self.name@,
            contact_name: self.contact_name@,
            contact_phone: self.contact_phone@,
        }
    }
}

/// What share of the payments for a type of product is a commission.
pub struct CommissionRule {
    pub rule_id: String,
    pub product_type: String,
    pub rate_basis_points: i64,
    pub status: String,
    pub effective_at: i64,
}

/// What a `CommissionRule` holds.
#[verifier::ext_equal]
pub struct CommissionRuleView {
    pub rule_id: Seq<char>,
    pub product_type: Seq<char>,
    pub rate_basis_points: i64,
    pub status: Seq<char>,
    pub effective_at: i64,
}

impl View for CommissionRule {
    type V = CommissionRuleView;

    open spec fn view(&self) -> CommissionRuleView {
        CommissionRuleView {
            rule_id: self.rule_id@,
            product_type: self.product_type@,
            rate_basis_points: self.rate_basis_points,
            status: self.status@,
            effective_at: self.effective_at,
        }
    }
}

/// A request for a new commission rule.
pub struct SaveCommissionRuleRequest {
    pub product_type: String,
    pub rate_basis_points: i64,
    pub effective_at: Option<i64>,
}

/// What a `SaveCommissionRuleRequest` holds.
#[verifier::ext_equal]
pub struct SaveCommissionRuleRequestView {
    pub product_type: Seq<char>,
    pub rate_basis_points: i64,
    pub effective_at: Option<i64>,
}

impl View for SaveCommissionRuleRequest {
    type V = SaveCommissionRuleRequestView;

    open spec fn view(&self) -> SaveCommissionRuleRequestView {
        SaveCommissionRuleRequestView {
            product_type: self.product_type@,
            rate_basis_points: self.rate_basis_points,
            effective_at: self.effective_at,
        }
    }
}

/// An entry in the ledger of commissions.
pub struct CommissionEntry {
    pub entry_id: String,
    pub order_id: String,
    pub provider_id: String,
    pub product_type: String,
    pub received_amount_cents: i64,
    pub rate_basis_points: i64,
    pub commission_amount_cents: i64,
    pub status: String,
    pub created_at: i64,
}

/// What a `CommissionEntry` holds.
#[verifier::ext_equal]
pub struct CommissionEntryView {
    pub entry_id: Seq<char>,
    pub order_id: Seq<char>,
    pub provider_id: Seq<char>,
    pub product_type: Seq<char>,
    pub received_amount_cents: i64,
    pub rate_basis_points: i64,
    pub commission_amount_cents: i64,
    pub status: Seq<char>,
    pub created_at: i64,
}

impl View for CommissionEntry {
    type V = CommissionEntryView;

    open spec fn view(&self) -> CommissionEntryView {
        CommissionEntryView {
            entry_id: self.entry_id@,
            order_id: self.order_id@,
            provider_id: self.provider_id@,
            product_type: self.product_type@,
            received_amount_cents: self.received_amount_cents,
            rate_basis_points: self.rate_basis_points,
            commission_amount_cents: self.commission_amount_cents,
            status: self.status@,
            created_at: self.created_at,
        }
    }
}

impl Duplicate for CommissionEntry {
    fn duplicate(&self) -> (r: Self) {
        CommissionEntry {
            entry_id: self.entry_id.clone(),
            order_id: self.order_id.clone(),
            provider_id: self.provider_id.clone(),
            product_type: self.product_type.clone(),
            received_amount_cents: self.received_amount_cents,
            rate_basis_points: self.rate_basis_points,
            commission_amount_cents: self.commission_amount_cents,
            status: self.status.clone(),
            created_at: self.created_at,
        }
    }
}

/// Commissions that were settled together.
pub struct SettlementBatch {
    pub batch_id: String,
    pub provider_id: String,
    pub total_amount_cents: i64,
    pub entry_count: i64,
    pub status: String,
    pub settled_at: i64,
    pub notes: String,
}

/// What a `SettlementBatch` holds.
#[verifier::ext_equal]
pub struct SettlementBatchView {
    pub batch_id: Seq<char>,
    pub provider_id: Seq<char>,
    pub total_amount_cents: i64,
    pub entry_count: i64,
    pub status: Seq<char>,
    pub settled_at: i64,
    pub notes: Seq<char>,
}

impl View for SettlementBatch {
    type V = SettlementBatchView;

    open spec fn view(&self) -> SettlementBatchView {
        SettlementBatchView {
            batch_id: self.batch_id@,
            provider_id: self.provider_id@,
            total_amount_cents: self.total_amount_cents,
            entry_count: self.entry_count,
            status: self.status@,
            settled_at: self.settled_at,
            notes: self.notes@,
        }
    }
}

/// A request to settle the commissions of a provider.
pub struct CreateSettlementBatchRequest {
    pub provider_id: String,
    pub notes: String,
}

/// What a `CreateSettlementBatchRequest` holds.
#[verifier::ext_equal]
pub struct CreateSettlementBatchRequestView {
    pub provider_id: Seq<char>,
    pub notes: Seq<char>,
}

impl View for CreateSettlementBatchRequest {
    type V = CreateSettlementBatchRequestView;

    open spec fn view(&self) -> CreateSettlementBatchRequestView {
        CreateSettlementBatchRequestView {
            provider_id: self.provider_id@,
            notes: self.notes@,
        }
    }
}

impl Keyed for ProviderRecord {
    open spec fn key_of(record: ProviderRecordView) -> Seq<char> {
        record.provider_id
    }

    fn has_key(&self, key: &str) -> (r: bool) {
        text::same(self.provider_id.as_str(), key)
    }
}

impl Keyed for CommissionEntry {
    open spec fn key_of(record: CommissionEntryView) -> Seq<char> {
        record.entry_id
    }

    fn has_key(&self, key: &str) -> (r: bool) {
        text::same(self.entry_id.as_str(), key)
    }
}

impl ProviderOwned for CommissionEntry {
    open spec fn owner(record: CommissionEntryView) -> Option<Seq<char>> {
        Some(record.provider_id)
    }

    fn belongs_to(&self, provider: &str) -> (r: bool) {
        text::same(self.provider_id.as_str(), provider)
    }
}

impl ProviderOwned for SettlementBatch {
    open spec fn owner(record: SettlementBatchView) -> Option<Seq<char>> {
        Some(record.provider_id)
    }

    fn belongs_to(&self, provider: &str) -> (r: bool) {
        text::same(self.provider_id.as_str(), provider)
    }
}

/// What a request for a new service provider comes to.
pub open spec fn new_provider_outcome(
    request: SaveProviderRequestView,
    provider_id: Seq<char>,
    now: i64,
) -> Result<ProviderRecordView, rejection::RejectionView> {
    if text::blank(request.name) {
        Err(rejection::refusal(rejection::BAD_REQUEST, "服务商名称不能为空"@))
    } else {
        Ok(
            ProviderRecordView {
                provider_id,
                name: text::trimmed(request.name),
                contact_name: text::trimmed(request.contact_name),
                contact_phone: text::trimmed(request.contact_phone),
                status: "active"@,
                created_at: now,
            },
        )
    }
}

/// The service provider that a request asks for, with a given identifier, made
/// at a given time.
pub fn new_provider(request: &SaveProviderRequest, provider_id: String, now: i64) -> (r: Result<
    ProviderRecord,
    Rejection,
>)
    ensures
        rejection::outcome(r) == new_provider_outcome(request@, provider_id@, now),
{
    if text::is_blank(request.name.as_str()) {
        return Err(refuse(rejection::BAD_REQUEST, "服务商名称不能为空"));
    }
    Ok(
        ProviderRecord {
            provider_id,
            name: text::trim_owned(request.name.as_str()),
            contact_name: text::trim_owned(request.contact_name.as_str()),
            contact_phone: text::trim_owned(request.contact_phone.as_str()),
            status: "active".to_string(),
            created_at: now,
        },
    )
}

/// The service provider that a request asks for, with a new identifier, made
/// now.
pub fn create_provider(request: &SaveProviderRequest) -> (r: Result<ProviderRecord, Rejection>)
    ensures
        exists|id: Seq<char>, now: i64| #[trigger]
            ids::is_resource_id_at(id, "prv"@, now) && rejection::outcome(r)
                == new_provider_outcome(request@, id, now),
{
    let id = ids::generated_resource_id("prv");
    let now = clock::now();
    assert(ids::is_resource_id_at(id@, "prv"@, now));
    new_provider(request, id, now)
}

/// Whether a rate is one that a rule can have: 0 to 100 percent.
pub open spec fn is_rate(basis_points: int) -> bool {
    0 <= basis_points <= 10_000
}

/// What a request for a new commission rule comes to.
pub open spec fn new_rule_outcome(
    request: SaveCommissionRuleRequestView,
    rule_id: Seq<char>,
    now: i64,
) -> Result<CommissionRuleView, rejection::RejectionView> {
    if text::blank(request.product_type) || !is_rate(request.rate_basis_points as int) {
        Err(rejection::refusal(rejection::BAD_REQUEST, "产品类型或返点比例无效"@))
    } else {
        Ok(
            CommissionRuleView {
                rule_id,
                product_type: text::trimmed(request.product_type),
                rate_basis_points: request.rate_basis_points,
                status: "active"@,
                effective_at: match request.effective_at {
                    Some(at) => at,
                    None => now,
                },
            },
        )
    }
}

/// The commission rule that a request asks for, with a given identifier, made
/// at a given time.
pub fn new_commission_rule(
    request: &SaveCommissionRuleRequest,
    rule_id: String,
    now: i64,
) -> (r: Result<CommissionRule, Rejection>)
    ensures
        rejection::outcome(r) == new_rule_outcome(request@, rule_id@, now),
{
    if text::is_blank(request.product_type.as_str()) || request.rate_basis_points < 0
        || request.rate_basis_points > 10_000 {
        return Err(refuse(rejection::BAD_REQUEST, "产品类型或返点比例无效"));
    }
    Ok(
        CommissionRule {
            rule_id,
            product_type: text::trim_owned(request.product_type.as_str()),
            rate_basis_points: request.rate_basis_points,
            status: "active".to_string(),
            effective_at: match request.effective_at {
                Some(at) => at,
                None => now,
            },
        },
    )
}

/// The commission rule that a request asks for, with a new identifier, made
/// now.
pub fn save_commission_rule(request: &SaveCommissionRuleRequest) -> (r: Result<
    CommissionRule,
    Rejection,
>)
    ensures
        exists|id: Seq<char>, now: i64| #[trigger]
            ids::is_resource_id_at(id, "crl"@, now) && rejection::outcome(r) == new_rule_outcome(
                request@,
                id,
                now,
            ),
{
    let id = ids::generated_resource_id("crl");
    let now = clock::now();
    assert(ids::is_resource_id_at(id@, "crl"@, now));
    new_commission_rule(request, id, now)
}

/// The type of product that commission rules know a kind of item by.
pub open spec fn product_type_of(kind: Seq<char>) -> Seq<char> {
    if kind == "platform"@ {
        "低代码平台"@
    } else if kind == "ai_employee"@ {
        "AI员工"@
    } else if kind == "module"@ {
        "通信"@
    } else {
        "服务"@
    }
}

/// The type of product that commission rules know a kind of item by.
pub fn product_type(kind: &str) -> (r: String)
    ensures
        r@ == product_type_of(kind@),
{
    if text::same(kind, "platform") {
        "低代码平台".to_string()
    } else if text::same(kind, "ai_employee") {
        "AI员工".to_string()
    } else if text::same(kind, "module") {
        "通信".to_string()
    } else {
        "服务".to_string()
    }
}

/// Whether a rule is in force for a type of product.
pub open spec fn in_force(rule: CommissionRuleView, product_type: Seq<char>, now: int) -> bool {
    rule.product_type == product_type && rule.status == "active"@ && rule.effective_at <= now
}

/// The rule for a type of product: of those in force, the one that took effect
/// last.
pub open spec fn rule_for(
    rules: Seq<CommissionRuleView>,
    product_type: Seq<char>,
    now: int,
) -> Option<CommissionRuleView>
    decreases rules.len(),
{
    if rules.len() == 0 {
        None
    } else {
        let before = rule_for(rules.drop_last(), product_type, now);
        let rule = rules.last();
        if !in_force(rule, product_type, now) {
            before
        } else {
            match before {
                Some(other) => if rule.effective_at > other.effective_at {
                    Some(rule)
                } else {
                    Some(other)
                },
                None => Some(rule),
            }
        }
    }
}

/// The rate for a type of product, if a rule is in force.
pub open spec fn rate_for(
    rules: Seq<CommissionRuleView>,
    product_type: Seq<char>,
    now: int,
) -> Option<i64> {
    match rule_for(rules, product_type, now) {
        Some(rule) => Some(rule.rate_basis_points),
        None => None,
    }
}

/// The rate for a type of product, if a rule is in force.
pub fn commission_rate(rules: &Vec<CommissionRule>, product_type: &str, now: i64) -> (r: Option<
    i64,
>)
    ensures
        r == rate_for(text::views(rules@), product_type@, now as int),
{
    let ghost all = text::views(rules@);
    let mut best: Option<usize> = None;
    let mut i: usize = 0;
    assert(all.take(0) =~= Seq::<CommissionRuleView>::empty());
    while i < rules.len()
        invariant
            i <= rules@.len(),
            all == text::views(rules@),
            match best {
                Some(b) => b < rules@.len() && rule_for(
                    all.take(i as int),
                    product_type@,
                    now as int,
                ) == Some(rules@[b as int]@),
                None => rule_for(all.take(i as int), product_type@, now as int) is None,
            },
        decreases rules@.len() - i,
    {
        let rule = &rules[i];
        proof {
            assert(all.take(i + 1).drop_last() =~= all.take(i as int));
            assert(all.take(i + 1).last() == rule@);
        }
        if text::same(rule.product_type.as_str(), product_type) && text::same(
            rule.status.as_str(),
            "active",
        ) && rule.effective_at <= now {
            match best {
                Some(b) => {
                    if rule.effective_at > rules[b].effective_at {
                        best = Some(i);
                    }
                },
                None => {
                    best = Some(i);
                },
            }
        }
        i = i + 1;
    }
    assert(all.take(all.len() as int) =~= all);
    match best {
        Some(b) => Some(rules[b].rate_basis_points),
        None => None,
    }
}

/// A rule that applies is in force, and none in force took effect after it.
pub proof fn law_rule_is_latest_in_force(
    rules: Seq<CommissionRuleView>,
    product_type: Seq<char>,
    now: int,
)
    ensures
        match rule_for(rules, product_type, now) {
            Some(rule) => {
                &&& rules.contains(rule)
                &&& in_force(rule, product_type, now)
                &&& forall|i: int|
                    0 <= i < rules.len() && in_force(#[trigger] rules[i], product_type, now)
                        ==> rules[i].effective_at <= rule.effective_at
            },
            None => forall|i: int|
                0 <= i < rules.len() ==> !in_force(#[trigger] rules[i], product_type, now),
        },
    decreases rules.len(),
{
    if rules.len() > 0 {
        let init = rules.drop_last();
        law_rule_is_latest_in_force(init, product_type, now);
        assert forall|i: int| 0 <= i < init.len() implies rules[i] == #[trigger] init[i] by {}
        match rule_for(init, product_type, now) {
            Some(other) => {
                let k = init.index_of(other);
                assert(rules[k] == other);
            },
            None => {},
        }
        assert(rules[rules.len() - 1] == rules.last());
        assert forall|i: int| 0 <= i < rules.len() && i != rules.len() - 1 implies
            #[trigger] rules[i] == init[i] by {}
    }
}

/// Whether an entry waits to be settled with a provider.
pub open spec fn is_pending(entry: CommissionEntryView, provider_id: Seq<char>) -> bool {
    entry.provider_id == provider_id && entry.status == "pending_settlement"@
}

/// The sum of the commissions that wait to be settled with a provider.
pub open spec fn pending_sum(entries: Seq<CommissionEntryView>, provider_id: Seq<char>) -> int
    decreases entries.len(),
{
    if entries.len() == 0 {
        0
    } else {
        pending_sum(entries.drop_last(), provider_id) + (if is_pending(
            entries.last(),
            provider_id,
        ) {
            entries.last().commission_amount_cents as int
        } else {
            0
        })
    }
}

/// How many commissions wait to be settled with a provider.
pub open spec fn pending_count(entries: Seq<CommissionEntryView>, provider_id: Seq<char>) -> nat
    decreases entries.len(),
{
    if entries.len() == 0 {
        0
    } else {
        pending_count(entries.drop_last(), provider_id) + (if is_pending(
            entries.last(),
            provider_id,
        ) {
            1nat
        } else {
            0nat
        })
    }
}

/// Whether every partial sum of the waiting commissions is a 64-bit number.
pub open spec fn pending_sums_fit(
    entries: Seq<CommissionEntryView>,
    provider_id: Seq<char>,
) -> bool {
    forall|k: int|
        0 <= k <= entries.len() ==> i64::MIN <= #[trigger] pending_sum(entries.take(k), provider_id)
            <= i64::MAX
}

/// An entry after a settlement with a provider.
pub open spec fn settled(entry: CommissionEntryView, provider_id: Seq<char>) -> CommissionEntryView {
    if is_pending(entry, provider_id) {
        CommissionEntryView { status: "settled"@, ..entry }
    } else {
        entry
    }
}

/// The ledger after a settlement with a provider.
pub open spec fn settled_ledger(
    entries: Seq<CommissionEntryView>,
    provider_id: Seq<char>,
) -> Seq<CommissionEntryView> {
    entries.map_values(|e: CommissionEntryView| settled(e, provider_id))
}

/// What a request to settle with a provider comes to.
pub open spec fn settlement_outcome(
    request: CreateSettlementBatchRequestView,
    entries: Seq<CommissionEntryView>,
    batch_id: Seq<char>,
    now: i64,
) -> Result<SettlementBatchView, rejection::RejectionView> {
    if !pending_sums_fit(entries, request.provider_id) {
        Err(rejection::refusal(rejection::INTERNAL_SERVER_ERROR, "返利台账读取失败"@))
    } else if pending_count(entries, request.provider_id) == 0 {
        Err(rejection::refusal(rejection::BAD_REQUEST, "该服务商没有待结算返利"@))
    } else {
        Ok(
            SettlementBatchView {
                batch_id,
                provider_id: request.provider_id,
                total_amount_cents: pending_sum(entries, request.provider_id) as i64,
                entry_count: pending_count(entries, request.provider_id) as i64,
                status: "settled"@,
                settled_at: now,
                notes: text::trimmed(request.notes),
            },
        )
    }
}

/// The sum and the number of the commissions that wait to be settled, if the
/// sums are 64-bit numbers.
fn count_pending(entries: &Vec<CommissionEntry>, provider_id: &str) -> (r: Option<(i64, usize)>)
    ensures
        r is Some <==> pending_sums_fit(text::views(entries@), provider_id@),
        r matches Some((sum, count)) ==> sum == pending_sum(text::views(entries@), provider_id@)
            && count == pending_count(text::views(entries@), provider_id@),
{
    let ghost all = text::views(entries@);
    let mut sum: i64 = 0;
    let mut count: usize = 0;
    let mut i: usize = 0;
    assert(all.take(0) =~= Seq::<CommissionEntryView>::empty());
    while i < entries.len()
        invariant
            i <= entries@.len(),
            all == text::views(entries@),
            sum == pending_sum(all.take(i as int), provider_id@),
            count == pending_count(all.take(i as int), provider_id@),
            count <= i,
            forall|k: int|
                0 <= k <= i ==> i64::MIN <= #[trigger] pending_sum(all.take(k), provider_id@)
                    <= i64::MAX,
        decreases entries@.len() - i,
    {
        let entry = &entries[i];
        proof {
            assert(all.take(i + 1).drop_last() =~= all.take(i as int));
            assert(all.take(i + 1).last() == entry@);
        }
        if text::same(entry.provider_id.as_str(), provider_id) && text::same(
            entry.status.as_str(),
            "pending_settlement",
        ) {
            match sum.checked_add(entry.commission_amount_cents) {
                Some(next) => {
                    sum = next;
                },
                None => {
                    assert(!(i64::MIN <= pending_sum(all.take(i + 1), provider_id@) <= i64::MAX));
                    return None;
                },
            }
            count = count + 1;
        }
        i = i + 1;
    }
    assert(all.take(all.len() as int) =~= all);
    Some((sum, count))
}

/// Settles all waiting commissions of a provider in one batch with a given
/// identifier. A refused request changes nothing.
pub fn settle_commissions(
    request: &CreateSettlementBatchRequest,
    entries: &mut Vec<CommissionEntry>,
    batch_id: String,
    now: i64,
) -> (r: Result<SettlementBatch, Rejection>)
    ensures
        rejection::outcome(r) == settlement_outcome(
            request@,
            text::views(old(entries)@),
            batch_id@,
            now,
        ),
        text::views(final(entries)@) == (if r is Ok {
            settled_ledger(text::views(old(entries)@), request@.provider_id)
        } else {
            text::views(old(entries)@)
        }),
{
    let ghost before = text::views(entries@);
    let (total, count) = match count_pending(&*entries, request.provider_id.as_str()) {
        Some(counted) => counted,
        None => {
            return Err(refuse(rejection::INTERNAL_SERVER_ERROR, "返利台账读取失败"));
        },
    };
    if count == 0 {
        return Err(refuse(rejection::BAD_REQUEST, "该服务商没有待结算返利"));
    }
    let ghost provider = request@.provider_id;
    let total_entries: usize = entries.len();
    let mut i: usize = 0;
    while i < total_entries
        invariant
            i <= total_entries,
            entries@.len() == total_entries,
            before.len() == total_entries,
            provider == request@.provider_id,
            forall|k: int|
                0 <= k < i ==> (#[trigger] entries@[k])@ == settled(before[k], provider),
            forall|k: int| i <= k < entries@.len() ==> (#[trigger] entries@[k])@ == before[k],
        decreases total_entries - i,
    {
        let mut entry = entries[i].duplicate();
        assert(entry@ == before[i as int]);
        if text::same(entry.provider_id.as_str(), request.provider_id.as_str()) && text::same(
            entry.status.as_str(),
            "pending_settlement",
        ) {
            entry.status = "settled".to_string();
        }
        assert(entry@ =~= settled(before[i as int], provider));
        entries.set(i, entry);
        i = i + 1;
    }
    assert(text::views(entries@) =~= settled_ledger(before, provider));
    Ok(
        SettlementBatch {
            batch_id,
            provider_id: request.provider_id.clone(),
            total_amount_cents: total,
            entry_count: count as i64,
            status: "settled".to_string(),
            settled_at: now,
            notes: text::trim_owned(request.notes.as_str()),
        },
    )
}

/// Settles all waiting commissions of a provider now, in a batch with a new
/// identifier. A refused request changes nothing.
pub fn create_settlement_batch(
    request: &CreateSettlementBatchRequest,
    entries: &mut Vec<CommissionEntry>,
) -> (r: Result<SettlementBatch, Rejection>)
    ensures
        exists|id: Seq<char>, now: i64| #[trigger]
            ids::is_resource_id_at(id, "stl"@, now) && rejection::outcome(r) == settlement_outcome(
                request@,
                text::views(old(entries)@),
                id,
                now,
            ),
        text::views(final(entries)@) == (if r is Ok {
            settled_ledger(text::views(old(entries)@), request@.provider_id)
        } else {
            text::views(old(entries)@)
        }),
{
    let id = ids::generated_resource_id("stl");
    let now = clock::now();
    assert(ids::is_resource_id_at(id@, "stl"@, now));
    settle_commissions(request, entries, id, now)
}

/// The batch that an entry is settled in, where a batch settles it: the batch of
/// the provider that it waits to be settled with.
pub open spec fn batch_of(entry: CommissionEntryView, batch: SettlementBatchView) -> Option<
    Seq<char>,
> {
    if is_pending(entry, batch.provider_id) {
        Some(batch.batch_id)
    } else {
        None
    }
}

/// The identifier of a batch that is written on an entry, given the entry before
/// the batch was made.
pub fn settlement_batch_id(entry: &CommissionEntry, batch: &SettlementBatch) -> (r: Option<String>)
    ensures
        text::opt_view(r) == batch_of(entry@, batch@),
{
    if text::same(entry.provider_id.as_str(), batch.provider_id.as_str()) && text::same(
        entry.status.as_str(),
        "pending_settlement",
    ) {
        Some(batch.batch_id.clone())
    } else {
        None
    }
}

/// A batch is written on exactly the entries that it settles.
pub proof fn law_settled_entries_name_their_batch(
    request: CreateSettlementBatchRequestView,
    entries: Seq<CommissionEntryView>,
    batch_id: Seq<char>,
    now: i64,
    i: int,
)
    requires
        0 <= i < entries.len(),
    ensures
        settlement_outcome(request, entries, batch_id, now) matches Ok(batch) ==> {
            let after = settled_ledger(entries, request.provider_id)[i];
            &&& batch_of(entries[i], batch) == Some(batch_id) <==> is_pending(
                entries[i],
                request.provider_id,
            )
            &&& batch_of(entries[i], batch) is Some <==> after != entries[i]
            &&& batch_of(entries[i], batch) is Some ==> after.status == "settled"@
        },
{
    reveal_strlit("settled");
    reveal_strlit("pending_settlement");
    assert("settled"@.len() != "pending_settlement"@.len());
}

proof fn lemma_settled_has_none_pending(entries: Seq<CommissionEntryView>, provider_id: Seq<char>)
    ensures
        pending_count(settled_ledger(entries, provider_id), provider_id) == 0,
        pending_sum(settled_ledger(entries, provider_id), provider_id) == 0,
        pending_sums_fit(settled_ledger(entries, provider_id), provider_id),
    decreases entries.len(),
{
    reveal_strlit("settled");
    reveal_strlit("pending_settlement");
    assert("settled"@.len() != "pending_settlement"@.len());
    let ledger = settled_ledger(entries, provider_id);
    if entries.len() > 0 {
        lemma_settled_has_none_pending(entries.drop_last(), provider_id);
        assert(ledger.drop_last() =~= settled_ledger(entries.drop_last(), provider_id));
        assert(ledger.last() == settled(entries.last(), provider_id));
        let init = ledger.drop_last();
        assert forall|k: int| 0 <= k <= ledger.len() implies i64::MIN <= #[trigger] pending_sum(
            ledger.take(k),
            provider_id,
        ) <= i64::MAX by {
            if k < ledger.len() {
                assert(ledger.take(k) =~= init.take(k));
                assert(i64::MIN <= pending_sum(init.take(k), provider_id) <= i64::MAX);
            } else {
                assert(ledger.take(k) =~= ledger);
            }
        }
    } else {
        assert(ledger =~= Seq::<CommissionEntryView>::empty());
        assert forall|k: int| 0 <= k <= ledger.len() implies i64::MIN <= #[trigger] pending_sum(
            ledger.take(k),
            provider_id,
        ) <= i64::MAX by {
            assert(ledger.take(k) =~= ledger);
        }
    }
}

/// No commission is settled twice: once a provider is settled with, a second
/// request has nothing to settle.
pub proof fn law_settled_once(
    request: CreateSettlementBatchRequestView,
    entries: Seq<CommissionEntryView>,
    batch_id: Seq<char>,
    now: i64,
)
    ensures
        settlement_outcome(
            request,
            settled_ledger(entries, request.provider_id),
            batch_id,
            now,
        ) == Err::<SettlementBatchView, rejection::RejectionView>(
            rejection::refusal(rejection::BAD_REQUEST, "该服务商没有待结算返利"@),
        ),
{
    lemma_settled_has_none_pending(entries, request.provider_id);
}

/// A settlement with a provider leaves the commissions of all others alone.
pub proof fn law_settlement_keeps_other_providers(
    entries: Seq<CommissionEntryView>,
    provider_id: Seq<char>,
    i: int,
)
    requires
        0 <= i < entries.len(),
        entries[i].provider_id != provider_id,
    ensures
        settled_ledger(entries, provider_id)[i] == entries[i],
{
}

/// The entry that takes another one back.
pub open spec fn reversal_of(
    entry: CommissionEntryView,
    entry_id: Seq<char>,
    now: i64,
) -> CommissionEntryView {
    CommissionEntryView {
        entry_id,
        order_id: entry.order_id,
        provider_id: entry.provider_id,
        product_type: entry.product_type + "-退款冲正"@,
        received_amount_cents: (-entry.received_amount_cents) as i64,
        rate_basis_points: entry.rate_basis_points,
        commission_amount_cents: (-entry.commission_amount_cents) as i64,
        status: "reversed"@,
        created_at: now,
    }
}

/// What a request to take a commission back comes to: the entry that does.
pub open spec fn reversal_outcome(
    entry_id: Seq<char>,
    entries: Seq<CommissionEntryView>,
    new_id: Seq<char>,
    now: i64,
) -> Result<CommissionEntryView, rejection::RejectionView> {
    match lookup::found::<CommissionEntry>(entries, entry_id) {
        None => Err(rejection::refusal(rejection::NOT_FOUND, "返利记录不存在"@)),
        Some(entry) => if entry.status != "pending_settlement"@ {
            Err(rejection::refusal(rejection::BAD_REQUEST, "仅待结算返利可冲正"@))
        } else {
            Ok(reversal_of(entry, new_id, now))
        },
    }
}

/// The ledger after a commission was taken back: every entry with the
/// identifier is marked, and the entry that takes it back is added.
pub open spec fn reversed_ledger(
    entries: Seq<CommissionEntryView>,
    entry_id: Seq<char>,
    reversal: CommissionEntryView,
) -> Seq<CommissionEntryView> {
    entries.push(reversal).map_values(
        |e: CommissionEntryView|
            if e.entry_id == entry_id {
                CommissionEntryView { status: "reversed"@, ..e }
            } else {
                e
            },
    )
}

/// Whether the amounts of an entry can be negated.
pub open spec fn can_negate(entry: CommissionEntryView) -> bool {
    entry.received_amount_cents > i64::MIN && entry.commission_amount_cents > i64::MIN
}

/// Takes a waiting commission back by an entry with a given identifier. A
/// refused request changes nothing.
pub fn take_back_commission(
    entry_id: &str,
    entries: &mut Vec<CommissionEntry>,
    new_id: String,
    now: i64,
) -> (r: Result<CommissionEntry, Rejection>)
    requires
        lookup::found::<CommissionEntry>(text::views(old(entries)@), entry_id@) matches Some(entry)
            ==> entry.status == "pending_settlement"@ ==> can_negate(entry),
    ensures
        rejection::outcome(r) == reversal_outcome(
            entry_id@,
            text::views(old(entries)@),
            new_id@,
            now,
        ),
        text::views(final(entries)@) == (match r {
            Ok(reversal) => reversed_ledger(text::views(old(entries)@), entry_id@, reversal@),
            Err(_) => text::views(old(entries)@),
        }),
{
    let ghost before = text::views(entries@);
    let reversal = match lookup::find(&*entries, entry_id) {
        None => {
            return Err(refuse(rejection::NOT_FOUND, "返利记录不存在"));
        },
        Some(entry) => {
            if !text::same(entry.status.as_str(), "pending_settlement") {
                return Err(refuse(rejection::BAD_REQUEST, "仅待结算返利可冲正"));
            }
            CommissionEntry {
                entry_id: new_id,
                order_id: entry.order_id.clone(),
                provider_id: entry.provider_id.clone(),
                product_type: text::join2(entry.product_type.as_str(), "-退款冲正"),
                received_amount_cents: -entry.received_amount_cents,
                rate_basis_points: entry.rate_basis_points,
                commission_amount_cents: -entry.commission_amount_cents,
                status: "reversed".to_string(),
                created_at: now,
            }
        },
    };
    entries.push(reversal.duplicate());
    let ghost grown = text::views(entries@);
    assert(grown =~= before.push(reversal@));
    let total: usize = entries.len();
    let mut i: usize = 0;
    while i < total
        invariant
            i <= total,
            entries@.len() == total,
            grown.len() == total,
            forall|k: int|
                0 <= k < i ==> (#[trigger] entries@[k])@ == (if grown[k].entry_id == entry_id@ {
                    CommissionEntryView { status: "reversed"@, ..grown[k] }
                } else {
                    grown[k]
                }),
            forall|k: int| i <= k < entries@.len() ==> (#[trigger] entries@[k])@ == grown[k],
        decreases total - i,
    {
        let mut entry = entries[i].duplicate();
        assert(entry@ == grown[i as int]);
        if text::same(entry.entry_id.as_str(), entry_id) {
            entry.status = "reversed".to_string();
        }
        entries.set(i, entry);
        i = i + 1;
    }
    assert(text::views(entries@) =~= reversed_ledger(before, entry_id@, reversal@));
    Ok(reversal)
}

/// Takes a waiting commission back now, by an entry with a new identifier. A
/// refused request changes nothing.
pub fn reverse_commission(entry_id: &str, entries: &mut Vec<CommissionEntry>) -> (r: Result<
    CommissionEntry,
    Rejection,
>)
    requires
        lookup::found::<CommissionEntry>(text::views(old(entries)@), entry_id@) matches Some(entry)
            ==> entry.status == "pending_settlement"@ ==> can_negate(entry),
    ensures
        exists|id: Seq<char>, now: i64| #[trigger]
            ids::is_resource_id_at(id, "cme"@, now) && rejection::outcome(r) == reversal_outcome(
                entry_id@,
                text::views(old(entries)@),
                id,
                now,
            ),
        text::views(final(entries)@) == (match r {
            Ok(reversal) => reversed_ledger(text::views(old(entries)@), entry_id@, reversal@),
            Err(_) => text::views(old(entries)@),
        }),
{
    let id = ids::generated_resource_id("cme");
    let now = clock::now();
    assert(ids::is_resource_id_at(id@, "cme"@, now));
    take_back_commission(entry_id, entries, id, now)
}

/// A commission and the entry that takes it back cancel out.
pub proof fn law_reversal_cancels_out(
    entry_id: Seq<char>,
    entries: Seq<CommissionEntryView>,
    new_id: Seq<char>,
    now: i64,
)
    requires
        lookup::found::<CommissionEntry>(entries, entry_id) matches Some(entry) ==> can_negate(
            entry,
        ),
    ensures
        reversal_outcome(entry_id, entries, new_id, now) matches Ok(reversal) ==> {
            let entry = lookup::found::<CommissionEntry>(entries, entry_id)->Some_0;
            &&& reversal.commission_amount_cents + entry.commission_amount_cents == 0
            &&& reversal.received_amount_cents + entry.received_amount_cents == 0
        },
{
}

/// A commission that was taken back cannot be taken back again.
pub proof fn law_reversed_once(
    entry_id: Seq<char>,
    entries: Seq<CommissionEntryView>,
    reversal: CommissionEntryView,
    new_id: Seq<char>,
    now: i64,
)
    requires
        lookup::found::<CommissionEntry>(entries, entry_id) is Some,
    ensures
        reversal_outcome(
            entry_id,
            reversed_ledger(entries, entry_id, reversal),
            new_id,
            now,
        ) == Err::<CommissionEntryView, rejection::RejectionView>(
            rejection::refusal(rejection::BAD_REQUEST, "仅待结算返利可冲正"@),
        ),
{
    reveal_strlit("reversed");
    reveal_strlit("pending_settlement");
    assert("reversed"@.len() != "pending_settlement"@.len());
    let ledger = reversed_ledger(entries, entry_id, reversal);
    lookup::lemma_found::<CommissionEntry>(entries, entry_id);
    lookup::lemma_found::<CommissionEntry>(ledger, entry_id);
    let entry = lookup::found::<CommissionEntry>(entries, entry_id)->Some_0;
    let k = entries.index_of(entry);
    assert(entries.push(reversal)[k] == entry);
    assert(CommissionEntry::key_of(ledger[k]) == entry_id);
    match lookup::found::<CommissionEntry>(ledger, entry_id) {
        Some(marked) => {
            let m = ledger.index_of(marked);
            assert(ledger[m].status == "reversed"@);
        },
        None => {},
    }
}

/// A new service provider has the name and the contacts of the request and is
/// active from now on. It needs a name and nothing else.
pub proof fn law_new_provider_is_as_requested(
    request: SaveProviderRequestView,
    provider_id: Seq<char>,
    now: i64,
)
    ensures
        new_provider_outcome(request, provider_id, now) matches Ok(provider) ==> {
            &&& provider.provider_id == provider_id
            &&& provider.name == text::trimmed(request.name)
            &&& provider.contact_name == text::trimmed(request.contact_name)
            &&& provider.contact_phone == text::trimmed(request.contact_phone)
            &&& provider.status == "active"@
            &&& provider.created_at == now
        },
        new_provider_outcome(request, provider_id, now) is Ok <==> text::trimmed(request.name).len()
            > 0,
{
}

/// A new commission rule has the type of product and the rate of the request, and
/// is in effect from the second that it names or else from now on. The rate is
/// at most the whole.
pub proof fn law_new_rule_is_as_requested(
    request: SaveCommissionRuleRequestView,
    rule_id: Seq<char>,
    now: i64,
)
    ensures
        new_rule_outcome(request, rule_id, now) matches Ok(rule) ==> {
            &&& rule.rule_id == rule_id
            &&& rule.product_type == text::trimmed(request.product_type)
            &&& rule.rate_basis_points == request.rate_basis_points
            &&& rule.status == "active"@
            &&& request.effective_at is None ==> rule.effective_at == now
            &&& request.effective_at is Some ==> Some(rule.effective_at) == request.effective_at
        },
        new_rule_outcome(request, rule_id, now) is Ok <==> {
            &&& text::trimmed(request.product_type).len() > 0
            &&& 0 <= request.rate_basis_points <= 10_000
        },
{
}

/// What waits to be settled with a provider are the commissions of that provider
/// that wait to be settled: one more of them adds its amount and counts once, and
/// any other entry adds nothing.
pub proof fn law_waiting_commissions_add_up(
    entries: Seq<CommissionEntryView>,
    entry: CommissionEntryView,
    provider_id: Seq<char>,
)
    ensures
        pending_sum(Seq::empty(), provider_id) == 0,
        pending_count(Seq::empty(), provider_id) == 0,
        entry.provider_id == provider_id && entry.status == "pending_settlement"@ ==> {
            &&& pending_sum(entries.push(entry), provider_id) == pending_sum(entries, provider_id)
                + entry.commission_amount_cents
            &&& pending_count(entries.push(entry), provider_id) == pending_count(
                entries,
                provider_id,
            ) + 1
        },
        entry.provider_id != provider_id || entry.status != "pending_settlement"@ ==> {
            &&& pending_sum(entries.push(entry), provider_id) == pending_sum(entries, provider_id)
            &&& pending_count(entries.push(entry), provider_id) == pending_count(
                entries,
                provider_id,
            )
        },
{
    assert(entries.push(entry).drop_last() =~= entries);
}

/// A settlement pays all that waits to be settled with the provider that the
/// request names, and says how much that is and how many commissions it is for.
/// There is one exactly where something waits and the amounts can be added up.
pub proof fn law_settlement_pays_what_waits(
    request: CreateSettlementBatchRequestView,
    entries: Seq<CommissionEntryView>,
    batch_id: Seq<char>,
    now: i64,
)
    requires
        entries.len() <= i64::MAX,
    ensures
        settlement_outcome(request, entries, batch_id, now) matches Ok(batch) ==> {
            &&& batch.batch_id == batch_id
            &&& batch.provider_id == request.provider_id
            &&& batch.total_amount_cents == pending_sum(entries, request.provider_id)
            &&& batch.entry_count == pending_count(entries, request.provider_id)
            &&& batch.entry_count >= 1
            &&& batch.status == "settled"@
            &&& batch.settled_at == now
            &&& batch.notes == text::trimmed(request.notes)
        },
        pending_sums_fit(entries, request.provider_id) ==> (settlement_outcome(
            request,
            entries,
            batch_id,
            now,
        ) is Ok <==> exists|i: int|
            0 <= i < entries.len() && (#[trigger] entries[i]).provider_id == request.provider_id
                && entries[i].status == "pending_settlement"@),
{
    lemma_pending_count(entries, request.provider_id);
    assert(entries.take(entries.len() as int) =~= entries);
    if pending_sums_fit(entries, request.provider_id) {
        assert(i64::MIN <= pending_sum(entries.take(entries.len() as int), request.provider_id)
            <= i64::MAX);
    }
}

proof fn lemma_pending_count(entries: Seq<CommissionEntryView>, provider_id: Seq<char>)
    ensures
        pending_count(entries, provider_id) <= entries.len(),
        pending_count(entries, provider_id) > 0 <==> exists|i: int|
            0 <= i < entries.len() && (#[trigger] entries[i]).provider_id == provider_id
                && entries[i].status == "pending_settlement"@,
    decreases entries.len(),
{
    if entries.len() > 0 {
        let init = entries.drop_last();
        lemma_pending_count(init, provider_id);
        assert(entries[entries.len() - 1] == entries.last());
        if exists|i: int|
            0 <= i < entries.len() && (#[trigger] entries[i]).provider_id == provider_id
                && entries[i].status == "pending_settlement"@ {
            let i = choose|i: int|
                0 <= i < entries.len() && (#[trigger] entries[i]).provider_id == provider_id
                    && entries[i].status == "pending_settlement"@;
            if i < init.len() {
                assert(init[i] == entries[i]);
            }
        }
        if exists|i: int|
            0 <= i < init.len() && (#[trigger] init[i]).provider_id == provider_id
                && init[i].status == "pending_settlement"@ {
            let i = choose|i: int|
                0 <= i < init.len() && (#[trigger] init[i]).provider_id == provider_id
                    && init[i].status == "pending_settlement"@;
            assert(entries[i] == init[i]);
        }
    }
}

/// A settlement marks the commissions of the provider that wait as settled, and
/// changes nothing else of them and nothing of any other entry. Nothing is left to
/// settle with that provider, and as much as before with any other.
pub proof fn law_settlement_marks_what_it_pays(
    entries: Seq<CommissionEntryView>,
    provider_id: Seq<char>,
    other: Seq<char>,
)
    ensures
        settled_ledger(entries, provider_id).len() == entries.len(),
        forall|i: int|
            0 <= i < entries.len() ==> #[trigger] settled_ledger(entries, provider_id)[i] == (
            if entries[i].provider_id == provider_id && entries[i].status
                == "pending_settlement"@ {
                CommissionEntryView { status: "settled"@, ..entries[i] }
            } else {
                entries[i]
            }),
        pending_sum(settled_ledger(entries, provider_id), provider_id) == 0,
        other != provider_id ==> pending_sum(settled_ledger(entries, provider_id), other)
            == pending_sum(entries, other),
    decreases entries.len(),
{
    lemma_settled_has_none_pending(entries, provider_id);
    let ledger = settled_ledger(entries, provider_id);
    if entries.len() > 0 {
        law_settlement_marks_what_it_pays(entries.drop_last(), provider_id, other);
        assert(ledger.drop_last() =~= settled_ledger(entries.drop_last(), provider_id));
        assert(ledger.last() == settled(entries.last(), provider_id));
    } else {
        assert(ledger =~= entries);
    }
}

/// The entry that takes a commission back is on the same order, of the same
/// provider and at the same rate, with the amounts negated, and does not wait to
/// be settled. A commission can be taken back exactly while it waits.
pub proof fn law_reversal_mirrors_the_commission(
    entry_id: Seq<char>,
    entries: Seq<CommissionEntryView>,
    new_id: Seq<char>,
    now: i64,
)
    requires
        lookup::found::<CommissionEntry>(entries, entry_id) matches Some(entry) ==> can_negate(
            entry,
        ),
    ensures
        reversal_outcome(entry_id, entries, new_id, now) matches Ok(reversal) ==> {
            let entry = lookup::found::<CommissionEntry>(entries, entry_id)->Some_0;
            &&& entries.contains(entry)
            &&& entry.entry_id == entry_id
            &&& reversal.entry_id == new_id
            &&& reversal.order_id == entry.order_id
            &&& reversal.provider_id == entry.provider_id
            &&& reversal.product_type == entry.product_type + "-退款冲正"@
            &&& reversal.rate_basis_points == entry.rate_basis_points
            &&& reversal.received_amount_cents == -entry.received_amount_cents
            &&& reversal.commission_amount_cents == -entry.commission_amount_cents
            &&& reversal.status == "reversed"@
            &&& reversal.created_at == now
        },
        reversal_outcome(entry_id, entries, new_id, now) is Ok <==> (lookup::found::<
            CommissionEntry,
        >(entries, entry_id) matches Some(entry) && entry.status == "pending_settlement"@),
{
    lookup::lemma_found::<CommissionEntry>(entries, entry_id);
}

/// Taking a commission back adds the entry that does so to the ledger and marks
/// the commission. No other entry changes.
pub proof fn law_reversal_marks_the_commission(
    entries: Seq<CommissionEntryView>,
    entry_id: Seq<char>,
    reversal: CommissionEntryView,
)
    requires
        reversal.entry_id != entry_id,
    ensures
        reversed_ledger(entries, entry_id, reversal).len() == entries.len() + 1,
        reversed_ledger(entries, entry_id, reversal).last() == reversal,
        forall|i: int|
            0 <= i < entries.len() ==> #[trigger] reversed_ledger(entries, entry_id, reversal)[i]
                == (if entries[i].entry_id == entry_id {
                CommissionEntryView { status: "reversed"@, ..entries[i] }
            } else {
                entries[i]
            }),
{
}

proof fn lemma_reversed_sum(
    entries: Seq<CommissionEntryView>,
    marked: Seq<CommissionEntryView>,
    entry_id: Seq<char>,
    provider_id: Seq<char>,
    at: int,
)
    requires
        marked.len() == entries.len(),
        0 <= at < entries.len(),
        entries[at].entry_id == entry_id,
        forall|i: int| 0 <= i < entries.len() && i != at ==> (#[trigger] marked[i]) == entries[i],
        marked[at] == (CommissionEntryView { status: "reversed"@, ..entries[at] }),
    ensures
        entries[at].provider_id == provider_id && entries[at].status == "pending_settlement"@
            ==> pending_sum(marked, provider_id) == pending_sum(entries, provider_id)
            - entries[at].commission_amount_cents,
        entries[at].provider_id != provider_id ==> pending_sum(marked, provider_id) == pending_sum(
            entries,
            provider_id,
        ),
    decreases entries.len(),
{
    reveal_strlit("reversed");
    reveal_strlit("pending_settlement");
    assert("reversed"@.len() != "pending_settlement"@.len());
    let init = entries.drop_last();
    let rest = marked.drop_last();
    if at == entries.len() - 1 {
        assert(rest =~= init) by {
            assert forall|i: int| 0 <= i < init.len() implies rest[i] == init[i] by {
                assert(marked[i] == entries[i]);
            }
        }
        assert(marked.last() == marked[at]);
    } else {
        assert forall|i: int| 0 <= i < init.len() && i != at implies (#[trigger] rest[i])
            == init[i] by {
            assert(marked[i] == entries[i]);
        }
        assert(rest[at] == marked[at]);
        lemma_reversed_sum(init, rest, entry_id, provider_id, at);
        assert(marked[marked.len() - 1] == entries[entries.len() - 1]);
    }
}

/// Once a commission was taken back, so much less waits to be settled with its
/// provider, and as much as before with any other. This is of a ledger in which
/// no two entries share an identifier.
pub proof fn law_taken_back_commission_is_not_paid(
    entry_id: Seq<char>,
    entries: Seq<CommissionEntryView>,
    new_id: Seq<char>,
    now: i64,
    whose: Seq<char>,
)
    requires
        new_id != entry_id,
        forall|i: int, j: int|
            0 <= i < j < entries.len() ==> (#[trigger] entries[i]).entry_id != (
            #[trigger] entries[j]).entry_id,
    ensures
        reversal_outcome(entry_id, entries, new_id, now) matches Ok(reversal) ==> {
            let entry = lookup::found::<CommissionEntry>(entries, entry_id)->Some_0;
            pending_sum(reversed_ledger(entries, entry_id, reversal), whose) == pending_sum(
                entries,
                whose,
            ) - (if entry.provider_id == whose {
                entry.commission_amount_cents as int
            } else {
                0
            })
        },
{
    reveal_strlit("reversed");
    reveal_strlit("pending_settlement");
    assert("reversed"@.len() != "pending_settlement"@.len());
    match reversal_outcome(entry_id, entries, new_id, now) {
        Ok(reversal) => {
            lookup::lemma_found::<CommissionEntry>(entries, entry_id);
            let entry = lookup::found::<CommissionEntry>(entries, entry_id)->Some_0;
            let at = entries.index_of(entry);
            let ledger = reversed_ledger(entries, entry_id, reversal);
            let marked = ledger.drop_last();
            assert(marked.len() == entries.len());
            assert forall|i: int| 0 <= i < entries.len() && i != at implies (#[trigger] marked[i])
                == entries[i] by {
                if i < at {
                    assert(entries[i].entry_id != entries[at].entry_id);
                } else {
                    assert(entries[at].entry_id != entries[i].entry_id);
                }
            }
            lemma_reversed_sum(entries, marked, entry_id, whose, at);
            assert(ledger.last() == reversal);
        },
        Err(_) => {},
    }
}

/// An account of a service provider sees the commissions and the settlements of that
/// provider, and an account of the platform all of them.
pub proof fn law_commissions_are_seen_by_their_provider(
    user: crate::accounts::AuthenticatedUserView,
    entry: CommissionEntryView,
    batch: SettlementBatchView,
)
    ensures
        crate::accounts::sees::<CommissionEntry>(user, entry) <==> {
            ||| user.role != "provider_admin"@ && user.role != "provider_sales"@
            ||| entry.provider_id == user.organization_id
        },
        crate::accounts::sees::<SettlementBatch>(user, batch) <==> {
            ||| user.role != "provider_admin"@ && user.role != "provider_sales"@
            ||| batch.provider_id == user.organization_id
        },
{
}

/// The kinds of items stand for four types of products.
pub proof fn law_product_type_goes_by_the_kind(kind: Seq<char>)
    ensures
        kind == "platform"@ ==> product_type_of(kind) == "低代码平台"@,
        kind == "ai_employee"@ ==> product_type_of(kind) == "AI员工"@,
        kind == "module"@ ==> product_type_of(kind) == "通信"@,
        kind != "platform"@ && kind != "ai_employee"@ && kind != "module"@ ==> product_type_of(kind)
            == "服务"@,
{
    reveal_strlit("platform");
    reveal_strlit("ai_employee");
    reveal_strlit("module");
    assert("platform"@.len() == 8);
    assert("ai_employee"@.len() == 11);
    assert("module"@.len() == 6);
}

/// The rate for a type of product is that of an active rule for it that is in effect,
/// and of those the one that took effect last, or the first of them where several did
/// at once. There is none exactly where there is no such rule.
pub proof fn law_rate_is_that_of_the_latest_rule(
    rules: Seq<CommissionRuleView>,
    product_type: Seq<char>,
    now: int,
)
    ensures
        match rate_for(rules, product_type, now) {
            Some(rate) => exists|i: int|
                {
                    &&& 0 <= i < rules.len()
                    &&& (#[trigger] rules[i]).rate_basis_points == rate
                    &&& rules[i].product_type == product_type
                    &&& rules[i].status == "active"@
                    &&& rules[i].effective_at <= now
                    &&& forall|j: int|
                        0 <= j < rules.len() && (#[trigger] rules[j]).product_type == product_type
                            && rules[j].status == "active"@ && rules[j].effective_at <= now
                            ==> rules[j].effective_at < rules[i].effective_at || (j >= i
                            && rules[j].effective_at == rules[i].effective_at)
                },
            None => forall|j: int|
                0 <= j < rules.len() && (#[trigger] rules[j]).product_type == product_type
                    && rules[j].status == "active"@ ==> rules[j].effective_at > now,
        },
{
    law_rule_is_latest_in_force(rules, product_type, now);
    match rule_for(rules, product_type, now) {
        Some(rule) => {
            let i = lemma_rule_is_first(rules, product_type, now);
            assert(rules[i] == rule);
            assert forall|j: int|
                0 <= j < rules.len() && (#[trigger] rules[j]).product_type == product_type
                    && rules[j].status == "active"@ && rules[j].effective_at
                    <= now implies rules[j].effective_at < rules[i].effective_at || (j >= i
                && rules[j].effective_at == rules[i].effective_at) by {
                assert(in_force(rules[j], product_type, now));
            }
        },
        None => {
            assert forall|j: int|
                0 <= j < rules.len() && (#[trigger] rules[j]).product_type == product_type
                    && rules[j].status == "active"@ implies rules[j].effective_at > now by {
                assert(!in_force(rules[j], product_type, now));
            }
        },
    }
}

proof fn lemma_rule_is_first(
    rules: Seq<CommissionRuleView>,
    product_type: Seq<char>,
    now: int,
) -> (i: int)
    requires
        rule_for(rules, product_type, now) is Some,
    ensures
        0 <= i < rules.len(),
        rule_for(rules, product_type, now) == Some(rules[i]),
        forall|j: int|
            0 <= j < i && in_force(#[trigger] rules[j], product_type, now) ==> rules[j].effective_at
                < rules[i].effective_at,
    decreases rules.len(),
{
    let init = rules.drop_last();
    let last = rules.last();
    law_rule_is_latest_in_force(init, product_type, now);
    assert forall|j: int| 0 <= j < init.len() implies rules[j] == #[trigger] init[j] by {}
    match rule_for(init, product_type, now) {
        Some(other) => {
            let i = lemma_rule_is_first(init, product_type, now);
            if in_force(last, product_type, now) && last.effective_at > other.effective_at {
                assert forall|j: int|
                    0 <= j < rules.len() - 1 && in_force(
                        #[trigger] rules[j],
                        product_type,
                        now,
                    ) implies rules[j].effective_at < last.effective_at by {
                    assert(in_force(init[j], product_type, now));
                }
                rules.len() - 1
            } else {
                assert forall|j: int|
                    0 <= j < i && in_force(
                        #[trigger] rules[j],
                        product_type,
                        now,
                    ) implies rules[j].effective_at < rules[i].effective_at by {
                    assert(in_force(init[j], product_type, now));
                }
                i
            }
        },
        None => {
            assert forall|j: int|
                0 <= j < rules.len() - 1 && in_force(
                    #[trigger] rules[j],
                    product_type,
                    now,
                ) implies rules[j].effective_at < last.effective_at by {
                assert(!in_force(init[j], product_type, now));
            }
            rules.len() - 1
        },
    }
}

/// What is refused of providers, rules and commissions is a bad request, unless the
/// commission to take back is not there, or what waits cannot be added up.
pub proof fn law_refused_commission_says_why(
    provider: SaveProviderRequestView,
    rule: SaveCommissionRuleRequestView,
    settlement: CreateSettlementBatchRequestView,
    entries: Seq<CommissionEntryView>,
    entry_id: Seq<char>,
    id: Seq<char>,
    now: i64,
)
    ensures
        new_provider_outcome(provider, id, now) matches Err(e) ==> e.status == 400,
        new_rule_outcome(rule, id, now) matches Err(e) ==> e.status == 400,
        settlement_outcome(settlement, entries, id, now) matches Err(e) ==> {
            if pending_sums_fit(entries, settlement.provider_id) {
                e.status == 400
            } else {
                e.status == 500
            }
        },
        reversal_outcome(entry_id, entries, id, now) matches Err(e) ==> {
            if lookup::found::<CommissionEntry>(entries, entry_id) is Some {
                e.status == 400
            } else {
                e.status == 404
            }
        },
{
}

} // verus!
