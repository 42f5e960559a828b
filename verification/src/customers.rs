//! Customers: who buys, and whether they may.

use vstd::prelude::*;

use crate::catalog;
use crate::catalog::StatusRequest;
use crate::clock;
use crate::copying::Duplicate;
use crate::ids;
use crate::lookup;
use crate::lookup::Keyed;
use crate::rejection;
use crate::rejection::{refuse, Rejection};
use crate::text;

verus! {

/// A customer.
pub struct CustomerRecord {
    pub customer_id: String,
    pub name: String,
    pub contact_name: String,
    pub contact_phone: String,
    pub contact_email: String,
    pub status: String,
    pub notes: String,
    pub created_at: i64,
}

/// What a `CustomerRecord` holds.
#[verifier::ext_equal]
pub struct CustomerRecordView {
    pub customer_id: Seq<char>,
    pub name: Seq<char>,
    pub contact_name: Seq<char>,
    pub contact_phone: Seq<char>,
    pub contact_email: Seq<char>,
    pub status: Seq<char>,
    pub notes: Seq<char>,
    pub created_at: i64,
}

impl View for CustomerRecord {
    type V = CustomerRecordView;

    open spec fn view(&self) -> CustomerRecordView {
        CustomerRecordView {
            customer_id: self.customer_id@,
            name: self.name@,
            contact_name: self.contact_name@,
            contact_phone: self.contact_phone@,
            contact_email: self.contact_email@,
            status: self.status@,
            notes: self.notes@,
            created_at: self.created_at,
        }
    }
}

impl Duplicate for CustomerRecord {
    fn duplicate(&self) -> (r: Self) {
        CustomerRecord {
            customer_id: self.customer_id.clone(),
            name: self.name.clone(),
            contact_name: self.contact_name.clone(),
            contact_phone: self.contact_phone.clone(),
            contact_email: self.contact_email.clone(),
            status: self.status.clone(),
            notes: self.notes.clone(),
            created_at: self.created_at,
        }
    }
}

/// A request to make or change a customer.
pub struct CreateCustomerRequest {
    pub name: String,
    pub contact_name: String,
    pub contact_phone: String,
    pub contact_email: String,
    pub notes: String,
}

/// What a `CreateCustomerRequest` holds.
#[verifier::ext_equal]
pub struct CreateCustomerRequestView {
    pub name: Seq<char>,
    pub contact_name: Seq<char>,
    pub contact_phone: Seq<char>,
    pub contact_email: Seq<char>,
    pub notes: Seq<char>,
}

impl View for CreateCustomerRequest {
    type V = CreateCustomerRequestView;

    open spec fn view(&self) -> CreateCustomerRequestView {
        CreateCustomerRequestView {
            name: self.name@,
            contact_name: self.contact_name@,
            contact_phone: self.contact_phone@,
            contact_email: self.contact_email@,
            notes: self.notes@,
        }
    }
}

impl Keyed for CustomerRecord {
    open spec fn key_of(record: CustomerRecordView) -> Seq<char> {
        record.customer_id
    }

    fn has_key(&self, key: &str) -> (r: bool) {
        text::same(self.customer_id.as_str(), key)
    }
}

/// The customer with an identifier.
pub open spec fn customer_with(customers: Seq<CustomerRecordView>, id: Seq<char>) -> Option<
    CustomerRecordView,
> {
    lookup::found::<CustomerRecord>(customers, id)
}

/// A customer with what a request says of it.
pub open spec fn described(
    customer: CustomerRecordView,
    request: CreateCustomerRequestView,
) -> CustomerRecordView {
    CustomerRecordView {
        name: text::trimmed(request.name),
        contact_name: text::trimmed(request.contact_name),
        contact_phone: text::trimmed(request.contact_phone),
        contact_email: text::trimmed(request.contact_email),
        notes: text::trimmed(request.notes),
        ..customer
    }
}

/// What a request for a new customer comes to.
pub open spec fn new_customer_outcome(
    request: CreateCustomerRequestView,
    customer_id: Seq<char>,
    now: i64,
) -> Result<CustomerRecordView, rejection::RejectionView> {
    if text::blank(request.name) {
        Err(rejection::refusal(rejection::BAD_REQUEST, "客户名称不能为空"@))
    } else {
        Ok(
            CustomerRecordView {
                customer_id,
                name: text::trimmed(request.name),
                contact_name: text::trimmed(request.contact_name),
                contact_phone: text::trimmed(request.contact_phone),
                contact_email: text::trimmed(request.contact_email),
                status: "active"@,
                notes: text::trimmed(request.notes),
                created_at: now,
            },
        )
    }
}

/// The customer that a request asks for, with a given identifier, made at a
/// given time.
pub fn new_customer(request: &CreateCustomerRequest, customer_id: String, now: i64) -> (r: Result<
    CustomerRecord,
    Rejection,
>)
    ensures
        rejection::outcome(r) == new_customer_outcome(request@, customer_id@, now),
{
    if text::is_blank(request.name.as_str()) {
        return Err(refuse(rejection::BAD_REQUEST, "客户名称不能为空"));
    }
    Ok(
        CustomerRecord {
            customer_id,
            name: text::trim_owned(request.name.as_str()),
            contact_name: text::trim_owned(request.contact_name.as_str()),
            contact_phone: text::trim_owned(request.contact_phone.as_str()),
            contact_email: text::trim_owned(request.contact_email.as_str()),
            status: "active".to_string(),
            notes: text::trim_owned(request.notes.as_str()),
            created_at: now,
        },
    )
}

/// The customer that a request asks for, with a new identifier, made now.
pub fn create_customer(request: &CreateCustomerRequest) -> (r: Result<CustomerRecord, Rejection>)
    ensures
        exists|id: Seq<char>, now: i64| #[trigger]
            ids::is_record_id_at(id, "cus_"@, now) && rejection::outcome(r)
                == new_customer_outcome(request@, id, now),
{
    let id = ids::generated_record_id("cus_");
    let now = clock::now();
    assert(ids::is_record_id_at(id@, "cus_"@, now));
    new_customer(request, id, now)
}

/// What a request to change a customer comes to.
pub open spec fn changed_customer_outcome(
    request: CreateCustomerRequestView,
    customer_id: Seq<char>,
    customers: Seq<CustomerRecordView>,
) -> Result<CustomerRecordView, rejection::RejectionView> {
    if text::blank(request.name) {
        Err(rejection::refusal(rejection::BAD_REQUEST, "客户名称不能为空"@))
    } else {
        match customer_with(customers, customer_id) {
            None => Err(rejection::refusal(rejection::NOT_FOUND, "客户不存在"@)),
            Some(customer) => Ok(described(customer, request)),
        }
    }
}

/// A customer with what a request says of it.
pub fn update_customer(
    request: &CreateCustomerRequest,
    customer_id: &str,
    customers: &Vec<CustomerRecord>,
) -> (r: Result<CustomerRecord, Rejection>)
    ensures
        rejection::outcome(r) == changed_customer_outcome(
            request@,
            customer_id@,
            text::views(customers@),
        ),
{
    if text::is_blank(request.name.as_str()) {
        return Err(refuse(rejection::BAD_REQUEST, "客户名称不能为空"));
    }
    match lookup::find(customers, customer_id) {
        None => Err(refuse(rejection::NOT_FOUND, "客户不存在")),
        Some(existing) => {
            let mut customer = existing.duplicate();
            customer.name = text::trim_owned(request.name.as_str());
            customer.contact_name = text::trim_owned(request.contact_name.as_str());
            customer.contact_phone = text::trim_owned(request.contact_phone.as_str());
            customer.contact_email = text::trim_owned(request.contact_email.as_str());
            customer.notes = text::trim_owned(request.notes.as_str());
            Ok(customer)
        },
    }
}

/// What a request for another status of a customer comes to.
pub open spec fn customer_status_outcome(
    request: catalog::StatusRequestView,
    customer_id: Seq<char>,
    customers: Seq<CustomerRecordView>,
) -> Result<CustomerRecordView, rejection::RejectionView> {
    if !catalog::is_switch(request.status) {
        Err(rejection::refusal(rejection::BAD_REQUEST, "客户状态无效"@))
    } else {
        match customer_with(customers, customer_id) {
            None => Err(rejection::refusal(rejection::NOT_FOUND, "客户不存在"@)),
            Some(customer) => Ok(CustomerRecordView { status: request.status, ..customer }),
        }
    }
}

/// A customer with another status.
pub fn update_customer_status(
    request: &StatusRequest,
    customer_id: &str,
    customers: &Vec<CustomerRecord>,
) -> (r: Result<CustomerRecord, Rejection>)
    ensures
        rejection::outcome(r) == customer_status_outcome(
            request@,
            customer_id@,
            text::views(customers@),
        ),
{
    if !catalog::valid_switch(request.status.as_str()) {
        return Err(refuse(rejection::BAD_REQUEST, "客户状态无效"));
    }
    match lookup::find(customers, customer_id) {
        None => Err(refuse(rejection::NOT_FOUND, "客户不存在")),
        Some(existing) => {
            let mut customer = existing.duplicate();
            customer.status = request.status.clone();
            Ok(customer)
        },
    }
}

/// A new customer is what the request says of it and is active from now on. It
/// needs a name and nothing else.
pub proof fn law_new_customer_is_as_requested(
    request: CreateCustomerRequestView,
    customer_id: Seq<char>,
    now: i64,
)
    ensures
        new_customer_outcome(request, customer_id, now) matches Ok(customer) ==> {
            &&& customer.customer_id == customer_id
            &&& customer.name == text::trimmed(request.name)
            &&& customer.contact_name == text::trimmed(request.contact_name)
            &&& customer.contact_phone == text::trimmed(request.contact_phone)
            &&& customer.contact_email == text::trimmed(request.contact_email)
            &&& customer.notes == text::trimmed(request.notes)
            &&& customer.status == "active"@
            &&& customer.created_at == now
        },
        new_customer_outcome(request, customer_id, now) is Ok <==> text::trimmed(request.name).len()
            > 0,
{
}

/// A changed customer is what the request says of it, and keeps its identifier,
/// its status and when it was made.
pub proof fn law_changed_customer_is_as_requested(
    request: CreateCustomerRequestView,
    customer_id: Seq<char>,
    customers: Seq<CustomerRecordView>,
)
    ensures
        changed_customer_outcome(request, customer_id, customers) matches Ok(customer) ==> {
            let before = lookup::found::<CustomerRecord>(customers, customer_id)->Some_0;
            &&& customers.contains(before)
            &&& customer.customer_id == customer_id
            &&& customer.name == text::trimmed(request.name)
            &&& customer.contact_name == text::trimmed(request.contact_name)
            &&& customer.contact_phone == text::trimmed(request.contact_phone)
            &&& customer.contact_email == text::trimmed(request.contact_email)
            &&& customer.notes == text::trimmed(request.notes)
            &&& customer.status == before.status
            &&& customer.created_at == before.created_at
        },
        changed_customer_outcome(request, customer_id, customers) is Ok <==> {
            &&& text::trimmed(request.name).len() > 0
            &&& lookup::found::<CustomerRecord>(customers, customer_id) is Some
        },
{
    lookup::lemma_found::<CustomerRecord>(customers, customer_id);
}

/// Switching a customer gives it the status that is asked for, active or not, and
/// changes nothing else.
pub proof fn law_switched_customer_changes_status_only(
    request: catalog::StatusRequestView,
    customer_id: Seq<char>,
    customers: Seq<CustomerRecordView>,
)
    ensures
        customer_status_outcome(request, customer_id, customers) matches Ok(customer) ==> {
            let before = lookup::found::<CustomerRecord>(customers, customer_id)->Some_0;
            &&& customers.contains(before)
            &&& customer.customer_id == customer_id
            &&& customer.status == request.status
            &&& customer == (CustomerRecordView { status: customer.status, ..before })
        },
        customer_status_outcome(request, customer_id, customers) is Ok <==> {
            &&& request.status == "active"@ || request.status == "inactive"@
            &&& lookup::found::<CustomerRecord>(customers, customer_id) is Some
        },
{
    lookup::lemma_found::<CustomerRecord>(customers, customer_id);
}

/// What is refused of a customer is a bad request, unless the request is sound and
/// the customer is not there.
pub proof fn law_refused_customer_says_why(
    request: CreateCustomerRequestView,
    switch: catalog::StatusRequestView,
    customer_id: Seq<char>,
    customers: Seq<CustomerRecordView>,
    now: i64,
)
    ensures
        new_customer_outcome(request, customer_id, now) matches Err(e) ==> e.status == 400,
        changed_customer_outcome(request, customer_id, customers) matches Err(e) ==> {
            if text::trimmed(request.name).len() > 0 {
                e.status == 404
            } else {
                e.status == 400
            }
        },
        customer_status_outcome(switch, customer_id, customers) matches Err(e) ==> {
            if switch.status == "active"@ || switch.status == "inactive"@ {
                e.status == 404
            } else {
                e.status == 400
            }
        },
{
}

} // verus!
