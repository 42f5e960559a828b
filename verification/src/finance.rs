//! What was received, what is still due, and how many orders and customers
//! there are.

use vstd::prelude::*;

use crate::clock;
use crate::rejection;
use crate::rejection::{refuse, Rejection};
use crate::text;

verus! {

/// An amount that was received, and when.
pub struct Receipt {
    pub amount_cents: i64,
    pub occurred_at: i64,
}

/// What a `Receipt` holds.
#[verifier::ext_equal]
pub struct ReceiptView {
    pub amount_cents: i64,
    pub occurred_at: i64,
}

impl View for Receipt {
    type V = ReceiptView;

    open spec fn view(&self) -> ReceiptView {
        ReceiptView {
            amount_cents: self.amount_cents,
            occurred_at: self.occurred_at,
        }
    }
}

/// The amounts of an order.
pub struct OrderBalance {
    pub status: String,
    pub total_amount_cents: i64,
    pub received_amount_cents: i64,
}

/// What a `OrderBalance` holds.
#[verifier::ext_equal]
pub struct OrderBalanceView {
    pub status: Seq<char>,
    pub total_amount_cents: i64,
    pub received_amount_cents: i64,
}

impl View for OrderBalance {
    type V = OrderBalanceView;

    open spec fn view(&self) -> OrderBalanceView {
        OrderBalanceView {
            status: self.status@,
            total_amount_cents: self.total_amount_cents,
            received_amount_cents: self.received_amount_cents,
        }
    }
}

/// The state of the business.
pub struct FinanceSummary {
    pub total_received_cents: i64,
    pub month_received_cents: i64,
    pub outstanding_cents: i64,
    pub paid_order_count: i64,
    pub pending_order_count: i64,
    pub active_customer_count: i64,
}

/// What a `FinanceSummary` holds.
#[verifier::ext_equal]
pub struct FinanceSummaryView {
    pub total_received_cents: i64,
    pub month_received_cents: i64,
    pub outstanding_cents: i64,
    pub paid_order_count: i64,
    pub pending_order_count: i64,
    pub active_customer_count: i64,
}

impl View for FinanceSummary {
    type V = FinanceSummaryView;

    open spec fn view(&self) -> FinanceSummaryView {
        FinanceSummaryView {
            total_received_cents: self.total_received_cents,
            month_received_cents: self.month_received_cents,
            outstanding_cents: self.outstanding_cents,
            paid_order_count: self.paid_order_count,
            pending_order_count: self.pending_order_count,
            active_customer_count: self.active_customer_count,
        }
    }
}

/// The sum of some amounts.
pub open spec fn sum_of(amounts: Seq<int>) -> int
    decreases amounts.len(),
{
    if amounts.len() == 0 {
        0
    } else {
        sum_of(amounts.drop_last()) + amounts.last()
    }
}

/// Whether every partial sum of some amounts is a 64-bit number.
pub open spec fn sums_fit(amounts: Seq<int>) -> bool {
    forall|k: int|
        0 <= k <= amounts.len() ==> i64::MIN <= #[trigger] sum_of(amounts.take(k)) <= i64::MAX
}

/// Some 64-bit amounts as integers.
pub open spec fn integers(amounts: Seq<i64>) -> Seq<int> {
    amounts.map_values(|x: i64| x as int)
}

/// The sum of some amounts, where every partial sum is a 64-bit number.
fn checked_sum(amounts: &Vec<i64>) -> (r: Option<i64>)
    ensures
        r is Some <==> sums_fit(integers(amounts@)),
        r matches Some(sum) ==> sum == sum_of(integers(amounts@)),
{
    let ghost all = integers(amounts@);
    let mut sum: i64 = 0;
    let mut i: usize = 0;
    assert(all.take(0) =~= Seq::<int>::empty());
    while i < amounts.len()
        invariant
            i <= amounts@.len(),
            all == integers(amounts@),
            sum == sum_of(all.take(i as int)),
            forall|k: int| 0 <= k <= i ==> i64::MIN <= #[trigger] sum_of(all.take(k)) <= i64::MAX,
        decreases amounts@.len() - i,
    {
        proof {
            assert(all.take(i + 1).drop_last() =~= all.take(i as int));
            assert(all.take(i + 1).last() == amounts@[i as int]);
        }
        match sum.checked_add(amounts[i]) {
            Some(next) => {
                sum = next;
            },
            None => {
                assert(!(i64::MIN <= sum_of(all.take(i + 1)) <= i64::MAX));
                return None;
            },
        }
        i = i + 1;
    }
    assert(all.take(all.len() as int) =~= all);
    Some(sum)
}

/// The amounts that were received since a second.
pub open spec fn received_since(receipts: Seq<ReceiptView>, second: int) -> Seq<int>
    decreases receipts.len(),
{
    if receipts.len() == 0 {
        Seq::empty()
    } else {
        let before = received_since(receipts.drop_last(), second);
        if receipts.last().occurred_at >= second {
            before.push(receipts.last().amount_cents as int)
        } else {
            before
        }
    }
}

/// All amounts that were received.
pub open spec fn received(receipts: Seq<ReceiptView>) -> Seq<int> {
    receipts.map_values(|x: ReceiptView| x.amount_cents as int)
}

/// Whether payments for an order are still due.
pub open spec fn is_open(balance: OrderBalanceView) -> bool {
    balance.status != "cancelled"@ && balance.status != "fulfilled"@
}

/// What is still due for an order.
pub open spec fn due_for(balance: OrderBalanceView) -> int {
    if balance.total_amount_cents > balance.received_amount_cents {
        balance.total_amount_cents - balance.received_amount_cents
    } else {
        0
    }
}

/// What is still due for each of the open orders.
pub open spec fn dues(balances: Seq<OrderBalanceView>) -> Seq<int>
    decreases balances.len(),
{
    if balances.len() == 0 {
        Seq::empty()
    } else {
        let before = dues(balances.drop_last());
        if is_open(balances.last()) {
            before.push(due_for(balances.last()))
        } else {
            before
        }
    }
}

/// Whether the balance of every open order is a 64-bit number.
pub open spec fn balances_fit(balances: Seq<OrderBalanceView>) -> bool {
    forall|i: int|
        0 <= i < balances.len() && is_open(#[trigger] balances[i]) ==> i64::MIN
            <= balances[i].total_amount_cents - balances[i].received_amount_cents <= i64::MAX
}

/// How many of some statuses are one of two.
pub open spec fn count_of(statuses: Seq<Seq<char>>, one: Seq<char>, other: Seq<char>) -> nat
    decreases statuses.len(),
{
    if statuses.len() == 0 {
        0
    } else {
        count_of(statuses.drop_last(), one, other) + (if statuses.last() == one || statuses.last()
            == other {
            1nat
        } else {
            0nat
        })
    }
}

/// The statuses of some orders.
pub open spec fn statuses_of(balances: Seq<OrderBalanceView>) -> Seq<Seq<char>> {
    balances.map_values(|b: OrderBalanceView| b.status)
}

/// How many of some statuses are one of two.
fn count_statuses(statuses: &Vec<String>, one: &str, other: &str) -> (r: usize)
    ensures
        r == count_of(text::views(statuses@), one@, other@),
{
    let ghost all = text::views(statuses@);
    let mut count: usize = 0;
    let mut i: usize = 0;
    assert(all.take(0) =~= Seq::<Seq<char>>::empty());
    while i < statuses.len()
        invariant
            i <= statuses@.len(),
            all == text::views(statuses@),
            count == count_of(all.take(i as int), one@, other@),
            count <= i,
        decreases statuses@.len() - i,
    {
        proof {
            assert(all.take(i + 1).drop_last() =~= all.take(i as int));
            assert(all.take(i + 1).last() == statuses@[i as int]@);
        }
        if text::same(statuses[i].as_str(), one) || text::same(statuses[i].as_str(), other) {
            count = count + 1;
        }
        i = i + 1;
    }
    assert(all.take(all.len() as int) =~= all);
    count
}

/// The summary of the business at a time; `month_start` is the first second of
/// the month. Where a sum is not a 64-bit number there is none.
pub open spec fn summary_outcome(
    receipts: Seq<ReceiptView>,
    balances: Seq<OrderBalanceView>,
    customer_statuses: Seq<Seq<char>>,
    month_start: int,
) -> Result<FinanceSummaryView, rejection::RejectionView> {
    if sums_fit(received(receipts)) && sums_fit(received_since(receipts, month_start))
        && balances_fit(balances) && sums_fit(dues(balances)) {
        Ok(
            FinanceSummaryView {
                total_received_cents: sum_of(received(receipts)) as i64,
                month_received_cents: sum_of(received_since(receipts, month_start)) as i64,
                outstanding_cents: sum_of(dues(balances)) as i64,
                paid_order_count: count_of(statuses_of(balances), "paid"@, "fulfilled"@) as i64,
                pending_order_count: count_of(
                    statuses_of(balances),
                    "pending_payment"@,
                    "pending_payment"@,
                ) as i64,
                active_customer_count: count_of(
                    customer_statuses,
                    "active"@,
                    "active"@,
                ) as i64,
            },
        )
    } else {
        Err(rejection::refusal(rejection::INTERNAL_SERVER_ERROR, "财务汇总读取失败"@))
    }
}

/// All amounts that were received, and those since a second.
fn split_receipts(receipts: &Vec<Receipt>, second: i64) -> (r: (Vec<i64>, Vec<i64>))
    ensures
        integers(r.0@) == received(text::views(receipts@)),
        integers(r.1@) == received_since(text::views(receipts@), second as int),
{
    let ghost all = text::views(receipts@);
    let mut every: Vec<i64> = Vec::new();
    let mut late: Vec<i64> = Vec::new();
    let mut i: usize = 0;
    assert(all.take(0) =~= Seq::<ReceiptView>::empty());
    assert(integers(every@) =~= received(all.take(0)));
    assert(integers(late@) =~= received_since(all.take(0), second as int));
    while i < receipts.len()
        invariant
            i <= receipts@.len(),
            all == text::views(receipts@),
            integers(every@) == received(all.take(i as int)),
            integers(late@) == received_since(all.take(i as int), second as int),
        decreases receipts@.len() - i,
    {
        let amount = receipts[i].amount_cents;
        proof {
            assert(all.take(i + 1).drop_last() =~= all.take(i as int));
            assert(all.take(i + 1).last() == receipts@[i as int]@);
            assert(integers(every@.push(amount)) =~= integers(every@).push(amount as int));
            assert(integers(late@.push(amount)) =~= integers(late@).push(amount as int));
            assert(received(all.take(i + 1)) =~= received(all.take(i as int)).push(amount as int));
        }
        every.push(amount);
        if receipts[i].occurred_at >= second {
            late.push(amount);
        }
        i = i + 1;
    }
    assert(all.take(all.len() as int) =~= all);
    (every, late)
}

/// What is still due for each of the open orders, where every balance is a
/// 64-bit number.
fn collect_dues(balances: &Vec<OrderBalance>) -> (r: Option<Vec<i64>>)
    ensures
        r is Some <==> balances_fit(text::views(balances@)),
        r matches Some(list) ==> integers(list@) == dues(text::views(balances@)),
{
    let ghost all = text::views(balances@);
    let mut out: Vec<i64> = Vec::new();
    let mut i: usize = 0;
    assert(all.take(0) =~= Seq::<OrderBalanceView>::empty());
    assert(integers(out@) =~= dues(all.take(0)));
    while i < balances.len()
        invariant
            i <= balances@.len(),
            all == text::views(balances@),
            integers(out@) == dues(all.take(i as int)),
            forall|k: int|
                0 <= k < i && is_open(#[trigger] all[k]) ==> i64::MIN <= all[k].total_amount_cents
                    - all[k].received_amount_cents <= i64::MAX,
        decreases balances@.len() - i,
    {
        let balance = &balances[i];
        proof {
            assert(all.take(i + 1).drop_last() =~= all.take(i as int));
            assert(all.take(i + 1).last() == balance@);
            assert(all[i as int] == balance@);
        }
        if !text::same(balance.status.as_str(), "cancelled") && !text::same(
            balance.status.as_str(),
            "fulfilled",
        ) {
            match balance.total_amount_cents.checked_sub(balance.received_amount_cents) {
                Some(rest) => {
                    let due: i64 = if rest > 0 {
                        rest
                    } else {
                        0
                    };
                    assert(integers(out@.push(due)) =~= integers(out@).push(due as int));
                    out.push(due);
                },
                None => {
                    return None;
                },
            }
        }
        i = i + 1;
    }
    assert(all.take(all.len() as int) =~= all);
    Some(out)
}

/// The summary of the business; `month_start` is the first second of the month.
pub fn summarize(
    receipts: &Vec<Receipt>,
    balances: &Vec<OrderBalance>,
    customer_statuses: &Vec<String>,
    month_start: i64,
) -> (r: Result<FinanceSummary, Rejection>)
    ensures
        rejection::outcome(r) == summary_outcome(
            text::views(receipts@),
            text::views(balances@),
            text::views(customer_statuses@),
            month_start as int,
        ),
{
    let (every, late) = split_receipts(receipts, month_start);
    let due = match collect_dues(balances) {
        Some(due) => due,
        None => {
            return Err(refuse(rejection::INTERNAL_SERVER_ERROR, "财务汇总读取失败"));
        },
    };
    let mut statuses: Vec<String> = Vec::new();
    let mut i: usize = 0;
    assert(text::views(statuses@) =~= statuses_of(text::views(balances@)).take(0));
    while i < balances.len()
        invariant
            i <= balances@.len(),
            text::views(statuses@) == statuses_of(text::views(balances@)).take(i as int),
        decreases balances@.len() - i,
    {
        let status = balances[i].status.clone();
        proof {
            let all = statuses_of(text::views(balances@));
            text::lemma_views_push(statuses@, status);
            assert(all.take(i + 1) =~= all.take(i as int).push(all[i as int]));
        }
        statuses.push(status);
        i = i + 1;
    }
    assert(text::views(statuses@) =~= statuses_of(text::views(balances@)));
    match (checked_sum(&every), checked_sum(&late), checked_sum(&due)) {
        (Some(total), Some(month), Some(outstanding)) => Ok(
            FinanceSummary {
                total_received_cents: total,
                month_received_cents: month,
                outstanding_cents: outstanding,
                paid_order_count: count_statuses(&statuses, "paid", "fulfilled") as i64,
                pending_order_count: count_statuses(
                    &statuses,
                    "pending_payment",
                    "pending_payment",
                ) as i64,
                active_customer_count: count_statuses(
                    customer_statuses,
                    "active",
                    "active",
                ) as i64,
            },
        ),
        _ => Err(refuse(rejection::INTERNAL_SERVER_ERROR, "财务汇总读取失败")),
    }
}

/// The summary of the business in the month of a given second.
pub fn summarize_at(
    receipts: &Vec<Receipt>,
    balances: &Vec<OrderBalance>,
    customer_statuses: &Vec<String>,
    now: i64,
) -> (r: Result<FinanceSummary, Rejection>)
    requires
        clock::in_calendar(now as int),
    ensures
        rejection::outcome(r) == summary_outcome(
            text::views(receipts@),
            text::views(balances@),
            text::views(customer_statuses@),
            clock::month_start_of(now as int),
        ),
{
    summarize(receipts, balances, customer_statuses, clock::month_start(now))
}

/// The summary of the business now.
pub fn finance_summary(
    receipts: &Vec<Receipt>,
    balances: &Vec<OrderBalance>,
    customer_statuses: &Vec<String>,
) -> (r: Result<FinanceSummary, Rejection>)
    ensures
        exists|now: int| #[trigger]
            clock::in_calendar(now) && 0 <= now && rejection::outcome(r) == summary_outcome(
                text::views(receipts@),
                text::views(balances@),
                text::views(customer_statuses@),
                clock::month_start_of(now),
            ),
{
    let now = clock::now();
    assert(clock::in_calendar(now as int));
    summarize_at(receipts, balances, customer_statuses, now)
}

proof fn lemma_dues_not_negative(balances: Seq<OrderBalanceView>)
    ensures
        forall|i: int| 0 <= i < dues(balances).len() ==> #[trigger] dues(balances)[i] >= 0,
    decreases balances.len(),
{
    if balances.len() > 0 {
        let before = dues(balances.drop_last());
        lemma_dues_not_negative(balances.drop_last());
        assert forall|i: int| 0 <= i < dues(balances).len() implies #[trigger] dues(balances)[i]
            >= 0 by {
            if i < before.len() {
                assert(before[i] >= 0);
            }
        }
    }
}

proof fn lemma_sum_not_negative(amounts: Seq<int>)
    requires
        forall|i: int| 0 <= i < amounts.len() ==> #[trigger] amounts[i] >= 0,
    ensures
        sum_of(amounts) >= 0,
    decreases amounts.len(),
{
    if amounts.len() > 0 {
        let init = amounts.drop_last();
        assert forall|i: int| 0 <= i < init.len() implies #[trigger] init[i] >= 0 by {
            assert(amounts[i] >= 0);
        }
        lemma_sum_not_negative(init);
    }
}

/// What is outstanding is never negative.
pub proof fn law_outstanding_is_not_negative(
    receipts: Seq<ReceiptView>,
    balances: Seq<OrderBalanceView>,
    customer_statuses: Seq<Seq<char>>,
    month_start: int,
)
    ensures
        summary_outcome(receipts, balances, customer_statuses, month_start) matches Ok(summary)
            ==> summary.outstanding_cents >= 0,
{
    lemma_dues_not_negative(balances);
    lemma_sum_not_negative(dues(balances));
    assert(sums_fit(dues(balances)) ==> sum_of(dues(balances)) <= i64::MAX) by {
        assert(dues(balances).take(dues(balances).len() as int) =~= dues(balances));
    }
}

proof fn lemma_part_of_sum(receipts: Seq<ReceiptView>, second: int)
    requires
        forall|i: int| 0 <= i < receipts.len() ==> (#[trigger] receipts[i]).amount_cents > 0,
    ensures
        0 <= sum_of(received_since(receipts, second)) <= sum_of(received(receipts)),
    decreases receipts.len(),
{
    if receipts.len() > 0 {
        let init = receipts.drop_last();
        assert forall|i: int| 0 <= i < init.len() implies (#[trigger] init[i]).amount_cents > 0 by {
            assert(receipts[i].amount_cents > 0);
        }
        lemma_part_of_sum(init, second);
        assert(receipts[receipts.len() - 1].amount_cents > 0);
        assert(received(receipts).drop_last() =~= received(init));
        let amount = receipts.last().amount_cents as int;
        assert(received_since(init, second).push(amount).drop_last() =~= received_since(
            init,
            second,
        ));
    }
}

/// What was received this month is part of what was received.
pub proof fn law_month_is_part_of_total(
    receipts: Seq<ReceiptView>,
    balances: Seq<OrderBalanceView>,
    customer_statuses: Seq<Seq<char>>,
    month_start: int,
)
    requires
        forall|i: int| 0 <= i < receipts.len() ==> (#[trigger] receipts[i]).amount_cents > 0,
    ensures
        summary_outcome(receipts, balances, customer_statuses, month_start) matches Ok(summary)
            ==> 0 <= summary.month_received_cents <= summary.total_received_cents,
{
    lemma_part_of_sum(receipts, month_start);
    let all = received(receipts);
    assert(all.take(all.len() as int) =~= all);
    let late = received_since(receipts, month_start);
    assert(late.take(late.len() as int) =~= late);
    assert(sums_fit(all) ==> sum_of(all.take(all.len() as int)) <= i64::MAX);
    assert(sums_fit(late) ==> sum_of(late.take(late.len() as int)) <= i64::MAX);
}

/// One more receipt adds its amount to what was received in all, and to what was
/// received in the month where it came in since the month began. It changes no
/// other number of the summary.
pub proof fn law_receipt_is_counted(
    receipts: Seq<ReceiptView>,
    receipt: ReceiptView,
    balances: Seq<OrderBalanceView>,
    customer_statuses: Seq<Seq<char>>,
    month_start: int,
)
    ensures
        summary_outcome(receipts, balances, customer_statuses, month_start) matches Ok(before)
            ==> (summary_outcome(
            receipts.push(receipt),
            balances,
            customer_statuses,
            month_start,
        ) matches Ok(after) ==> {
            &&& after.total_received_cents == before.total_received_cents + receipt.amount_cents
            &&& after.month_received_cents == before.month_received_cents + (
            if receipt.occurred_at >= month_start {
                receipt.amount_cents as int
            } else {
                0
            })
            &&& after.outstanding_cents == before.outstanding_cents
            &&& after.paid_order_count == before.paid_order_count
            &&& after.pending_order_count == before.pending_order_count
            &&& after.active_customer_count == before.active_customer_count
        }),
{
    let more = receipts.push(receipt);
    lemma_sum_is_counted(received(receipts));
    lemma_sum_is_counted(received(more));
    lemma_sum_is_counted(received_since(receipts, month_start));
    lemma_sum_is_counted(received_since(more, month_start));
    assert(received(more).drop_last() =~= received(receipts));
    assert(more.drop_last() =~= receipts);
    let before = received_since(receipts, month_start);
    assert(before.push(receipt.amount_cents as int).drop_last() =~= before);
}

proof fn lemma_sum_is_counted(amounts: Seq<int>)
    ensures
        sums_fit(amounts) ==> i64::MIN <= sum_of(amounts) <= i64::MAX,
{
    assert(amounts.take(amounts.len() as int) =~= amounts);
    if sums_fit(amounts) {
        assert(i64::MIN <= sum_of(amounts.take(amounts.len() as int)) <= i64::MAX);
    }
}

proof fn lemma_count_is_counted(statuses: Seq<Seq<char>>, one: Seq<char>, other: Seq<char>)
    ensures
        count_of(statuses, one, other) <= statuses.len(),
    decreases statuses.len(),
{
    if statuses.len() > 0 {
        lemma_count_is_counted(statuses.drop_last(), one, other);
    }
}

/// One more order adds what is still to be received for it to what is outstanding,
/// unless it is cancelled or fulfilled. It counts as paid where it is paid or
/// fulfilled, and as pending where it waits for payment. It changes no other number
/// of the summary.
pub proof fn law_order_is_counted(
    receipts: Seq<ReceiptView>,
    balances: Seq<OrderBalanceView>,
    balance: OrderBalanceView,
    customer_statuses: Seq<Seq<char>>,
    month_start: int,
)
    requires
        balances.len() < i64::MAX,
    ensures
        summary_outcome(receipts, balances, customer_statuses, month_start) matches Ok(before)
            ==> (summary_outcome(
            receipts,
            balances.push(balance),
            customer_statuses,
            month_start,
        ) matches Ok(after) ==> {
            &&& after.outstanding_cents == before.outstanding_cents + (if balance.status
                == "cancelled"@ || balance.status == "fulfilled"@ || balance.total_amount_cents
                <= balance.received_amount_cents {
                0
            } else {
                balance.total_amount_cents - balance.received_amount_cents
            })
            &&& after.paid_order_count == before.paid_order_count + (if balance.status == "paid"@
                || balance.status == "fulfilled"@ {
                1int
            } else {
                0
            })
            &&& after.pending_order_count == before.pending_order_count + (if balance.status
                == "pending_payment"@ {
                1int
            } else {
                0
            })
            &&& after.total_received_cents == before.total_received_cents
            &&& after.month_received_cents == before.month_received_cents
            &&& after.active_customer_count == before.active_customer_count
        }),
{
    let more = balances.push(balance);
    assert(more.drop_last() =~= balances);
    lemma_sum_is_counted(dues(balances));
    lemma_sum_is_counted(dues(more));
    let before = dues(balances);
    assert(before.push(due_for(balance)).drop_last() =~= before);
    assert(statuses_of(more).drop_last() =~= statuses_of(balances));
    lemma_count_is_counted(statuses_of(balances), "paid"@, "fulfilled"@);
    lemma_count_is_counted(statuses_of(balances), "pending_payment"@, "pending_payment"@);
}

/// One more customer counts where it is active. It changes no other number of the
/// summary.
pub proof fn law_active_customer_is_counted(
    receipts: Seq<ReceiptView>,
    balances: Seq<OrderBalanceView>,
    customer_statuses: Seq<Seq<char>>,
    status: Seq<char>,
    month_start: int,
)
    requires
        customer_statuses.len() < i64::MAX,
    ensures
        summary_outcome(receipts, balances, customer_statuses, month_start) matches Ok(before)
            ==> (summary_outcome(
            receipts,
            balances,
            customer_statuses.push(status),
            month_start,
        ) matches Ok(after) ==> after == (FinanceSummaryView {
            active_customer_count: after.active_customer_count,
            ..before
        }) && after.active_customer_count == before.active_customer_count + (if status
            == "active"@ {
            1int
        } else {
            0
        })),
{
    assert(customer_statuses.push(status).drop_last() =~= customer_statuses);
    lemma_count_is_counted(customer_statuses, "active"@, "active"@);
}

/// Where nothing was received, ordered or known there is a summary, and every
/// number of it is zero.
pub proof fn law_summary_begins_at_zero(month_start: int)
    ensures
        summary_outcome(Seq::empty(), Seq::empty(), Seq::empty(), month_start) matches Ok(summary)
            && summary == (FinanceSummaryView {
            total_received_cents: 0,
            month_received_cents: 0,
            outstanding_cents: 0,
            paid_order_count: 0,
            pending_order_count: 0,
            active_customer_count: 0,
        }),
{
    let none = Seq::<int>::empty();
    assert(received(Seq::empty()) =~= none);
    assert(statuses_of(Seq::empty()) =~= Seq::<Seq<char>>::empty());
    assert forall|k: int| 0 <= k <= none.len() implies i64::MIN <= #[trigger] sum_of(
        none.take(k),
    ) <= i64::MAX by {
        assert(none.take(k) =~= none);
    }
}

} // verus!
