//! Licenses from before each license had an order of its own.

use vstd::prelude::*;

use crate::audit;
use crate::audit::{AuditLogCustomer, OrderOwner};
use crate::license_state;
use crate::licenses;
use crate::licenses::LicenseRecord;
use crate::lookup;
use crate::text;
use crate::text_map;
use crate::text_map::TextMap;

verus! {

/// A license as far as it matters which order it belongs to.
pub struct LicenseRow {
    pub license_id: String,
    pub subject: String,
    pub order_id: Option<String>,
    pub issued_at: i64,
}

/// What a `LicenseRow` holds.
#[verifier::ext_equal]
pub struct LicenseRowView {
    pub license_id: Seq<char>,
    pub subject: Seq<char>,
    pub order_id: Option<Seq<char>>,
    pub issued_at: i64,
}

impl View for LicenseRow {
    type V = LicenseRowView;

    open spec fn view(&self) -> LicenseRowView {
        LicenseRowView {
            license_id: self.license_id@,
            subject: self.subject@,
            order_id: text::opt_view(self.order_id),
            issued_at: self.issued_at,
        }
    }
}

/// Where a license goes, with the name of the customer that is kept with it.
pub enum Placement {
    /// To the licenses that have an order.
    Linked(String),
    /// To the licenses that have none.
    Unlinked(String),
    /// Nowhere: it is among the licenses without an order already.
    Known,
}

/// Where a license goes.
#[verifier::ext_equal]
pub enum PlacementView {
    Linked(Seq<char>),
    Unlinked(Seq<char>),
    Known,
}

impl View for Placement {
    type V = PlacementView;

    open spec fn view(&self) -> PlacementView {
        match self {
            Placement::Linked(name) => PlacementView::Linked(name@),
            Placement::Unlinked(name) => PlacementView::Unlinked(name@),
            Placement::Known => PlacementView::Known,
        }
    }
}

/// Whether a license was issued after another, or at the same time and comes
/// after it by its identifier.
pub open spec fn newer(a: LicenseRowView, b: LicenseRowView) -> bool {
    a.issued_at > b.issued_at || (a.issued_at == b.issued_at && text::text_lt(
        b.license_id,
        a.license_id,
    ))
}

/// Whether a license names an order for which there is no newer one.
pub open spec fn is_newest_of_order(rows: Seq<LicenseRowView>, row: LicenseRowView) -> bool {
    row.order_id is Some && forall|k: int|
        0 <= k < rows.len() && (#[trigger] rows[k]).order_id == row.order_id ==> !newer(
            rows[k],
            row,
        )
}

/// Whether a license stays with its order: the order is there, and no newer
/// license names it.
pub open spec fn keeps_order(
    rows: Seq<LicenseRowView>,
    row: LicenseRowView,
    orders: Seq<audit::OrderOwnerView>,
) -> bool {
    is_newest_of_order(rows, row) && lookup::found::<OrderOwner>(orders, row.order_id->Some_0)
        is Some
}

/// Where a license goes.
pub open spec fn placement(
    rows: Seq<LicenseRowView>,
    row: LicenseRowView,
    orders: Seq<audit::OrderOwnerView>,
    customers: Seq<audit::AuditLogCustomerView>,
    known: Seq<Seq<char>>,
) -> PlacementView {
    if keeps_order(rows, row, orders) {
        let order = lookup::found::<OrderOwner>(orders, row.order_id->Some_0)->Some_0;
        match lookup::found::<AuditLogCustomer>(customers, order.customer_id) {
            Some(customer) => PlacementView::Linked(customer.customer_name),
            None => PlacementView::Linked(row.subject),
        }
    } else if known.contains(row.license_id) {
        PlacementView::Known
    } else {
        PlacementView::Unlinked(row.subject)
    }
}

/// Whether a license was issued after another, or comes after it.
fn is_newer(a: &LicenseRow, b: &LicenseRow) -> (r: bool)
    ensures
        r == newer(a@, b@),
{
    a.issued_at > b.issued_at || (a.issued_at == b.issued_at && text::in_order(
        b.license_id.as_str(),
        a.license_id.as_str(),
    ) && !text::same(a.license_id.as_str(), b.license_id.as_str()))
}

/// Whether two licenses name the same order.
fn names_order(row: &LicenseRow, order_id: &str) -> (r: bool)
    ensures
        r == (row@.order_id == Some(order_id@)),
{
    match &row.order_id {
        Some(id) => text::same(id.as_str(), order_id),
        None => false,
    }
}

/// Whether no newer license names the order of a license.
fn newest_of_order(rows: &Vec<LicenseRow>, row: &LicenseRow, order_id: &str) -> (r: bool)
    requires
        row@.order_id == Some(order_id@),
    ensures
        r == is_newest_of_order(text::views(rows@), row@),
{
    let ghost all = text::views(rows@);
    let mut i: usize = 0;
    while i < rows.len()
        invariant
            i <= rows@.len(),
            all == text::views(rows@),
            row@.order_id == Some(order_id@),
            forall|k: int|
                0 <= k < i && (#[trigger] all[k]).order_id == row@.order_id ==> !newer(
                    all[k],
                    row@,
                ),
        decreases rows@.len() - i,
    {
        assert(all[i as int] == rows@[i as int]@);
        if names_order(&rows[i], order_id) && is_newer(&rows[i], row) {
            return false;
        }
        i = i + 1;
    }
    true
}

/// Where a license goes.
fn place(
    rows: &Vec<LicenseRow>,
    row: &LicenseRow,
    orders: &Vec<OrderOwner>,
    customers: &Vec<AuditLogCustomer>,
    known: &Vec<String>,
) -> (r: Placement)
    ensures
        r@ == placement(
            text::views(rows@),
            row@,
            text::views(orders@),
            text::views(customers@),
            text::views(known@),
        ),
{
    match &row.order_id {
        Some(order_id) => if newest_of_order(rows, row, order_id.as_str()) {
            match lookup::find(orders, order_id.as_str()) {
                Some(order) => {
                    return match lookup::find(customers, order.customer_id.as_str()) {
                        Some(customer) => Placement::Linked(customer.customer_name.clone()),
                        None => Placement::Linked(row.subject.clone()),
                    };
                },
                None => {},
            }
        },
        None => {},
    }
    if text::contains_text(known, row.license_id.as_str()) {
        Placement::Known
    } else {
        Placement::Unlinked(row.subject.clone())
    }
}

/// Where each license goes.
pub open spec fn placements(
    rows: Seq<LicenseRowView>,
    orders: Seq<audit::OrderOwnerView>,
    customers: Seq<audit::AuditLogCustomerView>,
    known: Seq<Seq<char>>,
) -> Seq<PlacementView> {
    rows.map_values(|row: LicenseRowView| placement(rows, row, orders, customers, known))
}

/// Where each license of an older database goes. `known` are the identifiers
/// of the licenses without an order that are stored already.
pub fn relate_licenses(
    rows: &Vec<LicenseRow>,
    orders: &Vec<OrderOwner>,
    customers: &Vec<AuditLogCustomer>,
    known: &Vec<String>,
) -> (r: Vec<Placement>)
    ensures
        text::views(r@) == placements(
            text::views(rows@),
            text::views(orders@),
            text::views(customers@),
            text::views(known@),
        ),
{
    let ghost all = text::views(rows@);
    let ghost wanted = placements(
        all,
        text::views(orders@),
        text::views(customers@),
        text::views(known@),
    );
    let mut out: Vec<Placement> = Vec::new();
    let mut i: usize = 0;
    assert(text::views(out@) =~= wanted.take(0));
    while i < rows.len()
        invariant
            i <= rows@.len(),
            all == text::views(rows@),
            wanted == placements(
                all,
                text::views(orders@),
                text::views(customers@),
                text::views(known@),
            ),
            text::views(out@) == wanted.take(i as int),
        decreases rows@.len() - i,
    {
        let placed = place(rows, &rows[i], orders, customers, known);
        proof {
            text::lemma_views_push(out@, placed);
            assert(all[i as int] == rows@[i as int]@);
            assert(wanted.take(i + 1) =~= wanted.take(i as int).push(wanted[i as int]));
        }
        out.push(placed);
        i = i + 1;
    }
    assert(wanted.take(wanted.len() as int) =~= wanted);
    out
}

/// The linkage that a license is stored with, where it is stored anew.
pub open spec fn linkage_of(placement: PlacementView) -> Option<Seq<char>> {
    match placement {
        PlacementView::Linked(_) => Some("linked"@),
        PlacementView::Unlinked(_) => Some("legacy_unlinked"@),
        PlacementView::Known => None,
    }
}

/// The linkage that a license is stored with, where it is stored anew.
pub fn linkage(placement: &Placement) -> (r: Option<String>)
    ensures
        text::opt_view(r) == linkage_of(placement@),
{
    match placement {
        Placement::Linked(_) => Some("linked".to_string()),
        Placement::Unlinked(_) => Some("legacy_unlinked".to_string()),
        Placement::Known => None,
    }
}

/// A license that is not stored without an order already goes to exactly one
/// place: to its order where it keeps that, and to the licenses without an order
/// otherwise.
pub proof fn law_every_license_is_kept(
    rows: Seq<LicenseRowView>,
    orders: Seq<audit::OrderOwnerView>,
    customers: Seq<audit::AuditLogCustomerView>,
    known: Seq<Seq<char>>,
    i: int,
)
    requires
        0 <= i < rows.len(),
        !known.contains(rows[i].license_id),
    ensures
        placements(rows, orders, customers, known).len() == rows.len(),
        placements(rows, orders, customers, known)[i] is Linked <==> keeps_order(
            rows,
            rows[i],
            orders,
        ),
        placements(rows, orders, customers, known)[i] is Unlinked <==> !keeps_order(
            rows,
            rows[i],
            orders,
        ),
{
}

/// Licenses that kept their orders keep them when they are related once more,
/// without those that did not.
pub proof fn law_related_licenses_stay(
    rows: Seq<LicenseRowView>,
    kept: Seq<LicenseRowView>,
    orders: Seq<audit::OrderOwnerView>,
    customers: Seq<audit::AuditLogCustomerView>,
    known: Seq<Seq<char>>,
    i: int,
)
    requires
        forall|k: int|
            0 <= k < kept.len() ==> rows.contains(#[trigger] kept[k]) && keeps_order(
                rows,
                kept[k],
                orders,
            ),
        0 <= i < kept.len(),
    ensures
        placements(kept, orders, customers, known)[i] is Linked,
{
    let row = kept[i];
    assert forall|k: int|
        0 <= k < kept.len() && (#[trigger] kept[k]).order_id == row.order_id implies !newer(
        kept[k],
        row,
    ) by {
        let m = rows.index_of(kept[k]);
        assert(rows[m].order_id == row.order_id);
    }
}

/// An order keeps no more than one license. (Licenses are told apart by their
/// identifiers.)
pub proof fn law_order_keeps_one_license(
    rows: Seq<LicenseRowView>,
    orders: Seq<audit::OrderOwnerView>,
    customers: Seq<audit::AuditLogCustomerView>,
    known: Seq<Seq<char>>,
    i: int,
    j: int,
)
    requires
        0 <= i < rows.len(),
        0 <= j < rows.len(),
        rows[i].license_id != rows[j].license_id,
        placements(rows, orders, customers, known)[i] is Linked,
        placements(rows, orders, customers, known)[j] is Linked,
    ensures
        rows[i].order_id != rows[j].order_id,
{
    if rows[i].order_id == rows[j].order_id {
        assert(!newer(rows[i], rows[j]));
        assert(!newer(rows[j], rows[i]));
        text::lemma_text_le_total(rows[i].license_id, rows[j].license_id);
    }
}

/// An order that some license names keeps one of them: the newest.
pub proof fn law_order_keeps_its_newest_license(
    rows: Seq<LicenseRowView>,
    orders: Seq<audit::OrderOwnerView>,
    customers: Seq<audit::AuditLogCustomerView>,
    known: Seq<Seq<char>>,
    order_id: Seq<char>,
    i: int,
)
    requires
        0 <= i < rows.len(),
        rows[i].order_id == Some(order_id),
        lookup::found::<OrderOwner>(orders, order_id) is Some,
    ensures
        exists|j: int|
            0 <= j < rows.len() && (#[trigger] rows[j]).order_id == Some(order_id) && placements(
                rows,
                orders,
                customers,
                known,
            )[j] is Linked && !newer(rows[i], rows[j]),
{
    let j = lemma_newest_exists(rows, order_id, i);
    assert(rows[j].order_id == Some(order_id));
    assert(is_newest_of_order(rows, rows[j]));
    assert(placements(rows, orders, customers, known)[j] is Linked);
}

proof fn lemma_newest_exists(rows: Seq<LicenseRowView>, order_id: Seq<char>, i: int) -> (j: int)
    requires
        0 <= i < rows.len(),
        rows[i].order_id == Some(order_id),
    ensures
        0 <= j < rows.len(),
        rows[j].order_id == Some(order_id),
        forall|k: int|
            0 <= k < rows.len() && (#[trigger] rows[k]).order_id == Some(order_id) ==> !newer(
                rows[k],
                rows[j],
            ),
    decreases rows.len(),
{
    let init = rows.drop_last();
    let last = rows.len() - 1;
    if exists|k: int| 0 <= k < init.len() && (#[trigger] init[k]).order_id == Some(order_id) {
        let k = choose|k: int|
            0 <= k < init.len() && (#[trigger] init[k]).order_id == Some(order_id);
        let j = lemma_newest_exists(init, order_id, k);
        let best = if rows[last].order_id == Some(order_id) && newer(rows[last], rows[j]) {
            last
        } else {
            j
        };
        assert forall|m: int|
            0 <= m < rows.len() && (#[trigger] rows[m]).order_id == Some(order_id) implies !newer(
            rows[m],
            rows[best],
        ) by {
            if m < last {
                assert(init[m] == rows[m]);
                assert(init[j] == rows[j]);
                lemma_newer_is_transitive(rows[m], rows[best], rows[j]);
            } else {
                lemma_newer_is_irreflexive(rows[m]);
            }
        }
        best
    } else {
        assert(i == last) by {
            if i < last {
                assert(init[i] == rows[i]);
            }
        }
        assert forall|m: int|
            0 <= m < rows.len() && (#[trigger] rows[m]).order_id == Some(order_id) implies !newer(
            rows[m],
            rows[last],
        ) by {
            if m < last {
                assert(init[m] == rows[m]);
            }
        }
        last
    }
}

proof fn lemma_newer_is_irreflexive(a: LicenseRowView)
    ensures
        !newer(a, a),
{
}

proof fn lemma_newer_is_transitive(a: LicenseRowView, b: LicenseRowView, c: LicenseRowView)
    ensures
        newer(a, b) && newer(b, c) ==> newer(a, c),
{
    if newer(a, b) && newer(b, c) && a.issued_at == c.issued_at {
        text::lemma_text_le_transitive(c.license_id, b.license_id, a.license_id);
        if a.license_id == c.license_id {
            text::lemma_text_le_antisymmetric(a.license_id, b.license_id);
        }
    }
}

/// A license that was read from a file of older versions, as it is stored: one
/// that was revoked is destroyed with all of its modules.
pub open spec fn revoked_or_not(
    license: licenses::LicenseRecordView,
    revoked: Seq<Seq<char>>,
) -> licenses::LicenseRecordView {
    if revoked.contains(license.license_id) {
        licenses::LicenseRecordView {
            platform_status: "destroyed"@,
            module_statuses: text_map::marked(Map::empty(), license.modules, "destroyed"@),
            ..license
        }
    } else {
        license
    }
}

/// A license as it is stored: with its order, or without one and with the name
/// of the customer, or the subject in its place.
pub open spec fn stored(license: licenses::LicenseRecordView) -> licenses::LicenseRecordView {
    match license.order_id {
        Some(_) => licenses::LicenseRecordView { linkage_status: "linked"@, ..license },
        None => licenses::LicenseRecordView {
            linkage_status: "legacy_unlinked"@,
            customer_name_snapshot: if license.customer_name_snapshot.len() == 0 {
                license.subject
            } else {
                license.customer_name_snapshot
            },
            ..license
        },
    }
}

/// The license that is stored for one that was read from a file.
pub fn import_legacy_license(license: LicenseRecord, revoked: &Vec<String>) -> (r: LicenseRecord)
    ensures
        r@ == stored(revoked_or_not(license@, text::views(revoked@))),
{
    let mut out = license;
    if text::contains_text(revoked, out.license_id.as_str()) {
        let mut statuses: TextMap<String> = TextMap::new();
        statuses.mark(&out.modules, "destroyed");
        out.module_statuses = statuses;
        out.platform_status = "destroyed".to_string();
    }
    if out.order_id.is_some() {
        out.linkage_status = "linked".to_string();
    } else {
        out.linkage_status = "legacy_unlinked".to_string();
        if out.customer_name_snapshot.as_str().is_empty() {
            out.customer_name_snapshot = out.subject.clone();
        }
    }
    out
}

/// The licenses that are stored for those that were read from a file.
pub fn import_legacy_licenses(list: Vec<LicenseRecord>, revoked: &Vec<String>) -> (r: Vec<
    LicenseRecord,
>)
    ensures
        text::views(r@) == text::views(list@).map_values(
            |l: licenses::LicenseRecordView| stored(revoked_or_not(l, text::views(revoked@))),
        ),
{
    let ghost items = list@;
    let mut out: Vec<LicenseRecord> = Vec::new();
    for item in it: list
        invariant
            it.seq() == items,
            out@.len() == it.index(),
            forall|k: int|
                0 <= k < it.index() ==> (#[trigger] out@[k])@ == stored(
                    revoked_or_not(items[k]@, text::views(revoked@)),
                ),
    {
        out.push(import_legacy_license(item, revoked));
    }
    assert(text::views(out@) =~= text::views(items).map_values(
        |l: licenses::LicenseRecordView| stored(revoked_or_not(l, text::views(revoked@))),
    ));
    out
}

/// The licenses that are stored when the service starts for those that were read
/// from a file: none, once a license is stored.
pub fn import_at_first_start(
    known: &Vec<LicenseRecord>,
    list: Vec<LicenseRecord>,
    revoked: &Vec<String>,
) -> (r: Vec<LicenseRecord>)
    ensures
        known@.len() > 0 ==> r@.len() == 0,
        known@.len() == 0 ==> text::views(r@) == text::views(list@).map_values(
            |l: licenses::LicenseRecordView| stored(revoked_or_not(l, text::views(revoked@))),
        ),
{
    if known.len() > 0 {
        return Vec::new();
    }
    import_legacy_licenses(list, revoked)
}

/// A license that was revoked comes in destroyed, with every one of its modules.
/// One without an order comes in as one that belongs to no order; every other
/// one comes in with its order.
pub proof fn law_imported_license_is_told_apart(
    license: licenses::LicenseRecordView,
    revoked: Seq<Seq<char>>,
    module: Seq<char>,
)
    requires
        license.modules.contains(module),
    ensures
        ({
            let record = stored(revoked_or_not(license, revoked));
            &&& revoked.contains(license.license_id) ==> !license_state::is_live(record)
                && record.module_statuses.dom().contains(module) && record.module_statuses[module]
                == "destroyed"@
            &&& license.order_id is None <==> license_state::is_legacy(record)
            &&& license.order_id is Some <==> license_state::is_linked(record)
        }),
{
    reveal_strlit("linked");
    reveal_strlit("legacy_unlinked");
    assert("linked"@.len() != "legacy_unlinked"@.len());
}

/// A license that keeps its order comes with the name of the customer of that
/// order, or with its subject where the customer is not known. One that does not
/// comes with its subject.
pub proof fn law_placed_license_names_its_customer(
    rows: Seq<LicenseRowView>,
    orders: Seq<audit::OrderOwnerView>,
    customers: Seq<audit::AuditLogCustomerView>,
    known: Seq<Seq<char>>,
    i: int,
)
    requires
        0 <= i < rows.len(),
    ensures
        match placements(rows, orders, customers, known)[i] {
            PlacementView::Linked(name) => {
                &&& rows[i].order_id matches Some(id) && (lookup::found::<OrderOwner>(
                    orders,
                    id,
                ) matches Some(order) && (match lookup::found::<AuditLogCustomer>(
                    customers,
                    order.customer_id,
                ) {
                    Some(customer) => name == customer.customer_name,
                    None => name == rows[i].subject,
                }))
                &&& forall|k: int|
                    0 <= k < rows.len() && (#[trigger] rows[k]).order_id == rows[i].order_id
                        ==> rows[k].issued_at <= rows[i].issued_at
            },
            PlacementView::Unlinked(name) => name == rows[i].subject && !known.contains(
                rows[i].license_id,
            ),
            PlacementView::Known => known.contains(rows[i].license_id),
        },
        linkage_of(PlacementView::Linked(rows[i].subject)) == Some("linked"@),
        linkage_of(PlacementView::Unlinked(rows[i].subject)) == Some("legacy_unlinked"@),
        linkage_of(PlacementView::Known) is None,
{
    if keeps_order(rows, rows[i], orders) {
        assert forall|k: int|
            0 <= k < rows.len() && (#[trigger] rows[k]).order_id
                == rows[i].order_id implies rows[k].issued_at <= rows[i].issued_at by {
            assert(!newer(rows[k], rows[i]));
        }
    }
}

/// A license that comes in from an older version is kept as it was: only where it
/// was revoked do its statuses change, only its linkage is set, and only where it
/// has no order and no name of a customer is the subject taken for the name.
pub proof fn law_imported_license_is_kept_as_it_was(
    license: licenses::LicenseRecordView,
    revoked: Seq<Seq<char>>,
)
    ensures
        ({
            let record = stored(revoked_or_not(license, revoked));
            &&& record == (licenses::LicenseRecordView {
                platform_status: record.platform_status,
                module_statuses: record.module_statuses,
                linkage_status: record.linkage_status,
                customer_name_snapshot: record.customer_name_snapshot,
                ..license
            })
            &&& !revoked.contains(license.license_id) ==> record.platform_status
                == license.platform_status && record.module_statuses == license.module_statuses
            &&& revoked.contains(license.license_id) ==> record.platform_status == "destroyed"@
                && forall|m: Seq<char>| #[trigger]
                record.module_statuses.contains_key(m) <==> license.modules.contains(m)
            &&& license.order_id is Some ==> record.linkage_status == "linked"@
            &&& license.order_id is None ==> record.linkage_status == "legacy_unlinked"@
            &&& license.order_id is Some || license.customer_name_snapshot.len() > 0
                ==> record.customer_name_snapshot == license.customer_name_snapshot
            &&& license.order_id is None && license.customer_name_snapshot.len() == 0
                ==> record.customer_name_snapshot == license.subject
        }),
{
}

} // verus!
