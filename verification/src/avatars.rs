//! Pictures of AI employees.

use vstd::prelude::*;

use crate::catalog;
use crate::catalog::AiEmployeeProduct;
use crate::clock;
use crate::copying::Duplicate;
use crate::ids;
use crate::lookup;
use crate::rejection;
use crate::rejection::{refuse, Rejection};
use crate::text;

verus! {

/// How many bytes a picture may have.
pub const MAX_AVATAR_BYTES: usize = 5_242_880;

/// The name of the file of a picture.
pub open spec fn avatar_file_name(employee_id: Seq<char>, bytes: Seq<u8>) -> Seq<char> {
    employee_id + "-"@ + ids::hyphenated(bytes) + ".webp"@
}

/// A picture that was received: the AI employee with it, and the file of the
/// one before, which goes.
pub struct AvatarUpload {
    pub product: AiEmployeeProduct,
    pub file_name: String,
    pub previous: Option<String>,
}

/// What an `AvatarUpload` holds.
#[verifier::ext_equal]
pub struct AvatarUploadView {
    pub product: catalog::AiEmployeeProductView,
    pub file_name: Seq<char>,
    pub previous: Option<Seq<char>>,
}

impl View for AvatarUpload {
    type V = AvatarUploadView;

    open spec fn view(&self) -> AvatarUploadView {
        AvatarUploadView {
            product: self.product@,
            file_name: self.file_name@,
            previous: text::opt_view(self.previous),
        }
    }
}

/// What receiving a picture of some size comes to.
pub open spec fn upload_outcome(
    employee_id: Seq<char>,
    size: int,
    products: Seq<catalog::AiEmployeeProductView>,
    bytes: Seq<u8>,
    now: i64,
) -> Result<AvatarUploadView, rejection::RejectionView> {
    if size == 0 || size > MAX_AVATAR_BYTES {
        Err(rejection::refusal(rejection::BAD_REQUEST, "头像文件需小于 5MB"@))
    } else {
        match catalog::product_with(products, employee_id) {
            None => Err(rejection::refusal(rejection::NOT_FOUND, "AI 员工不存在"@)),
            Some(product) => Ok(
                AvatarUploadView {
                    product: catalog::AiEmployeeProductView {
                        avatar_url: Some(avatar_file_name(employee_id, bytes)),
                        updated_at: now,
                        ..product
                    },
                    file_name: avatar_file_name(employee_id, bytes),
                    previous: product.avatar_url,
                },
            ),
        }
    }
}

/// Receives a picture of some size, given the UUID of its file and the time.
pub fn upload_avatar_at(
    employee_id: &str,
    size: usize,
    products: &Vec<AiEmployeeProduct>,
    bytes: &Vec<u8>,
    now: i64,
) -> (r: Result<AvatarUpload, Rejection>)
    requires
        bytes@.len() == 16,
    ensures
        rejection::outcome(r) == upload_outcome(
            employee_id@,
            size as int,
            text::views(products@),
            bytes@,
            now,
        ),
{
    if size == 0 || size > MAX_AVATAR_BYTES {
        return Err(refuse(rejection::BAD_REQUEST, "头像文件需小于 5MB"));
    }
    match lookup::find(products, employee_id) {
        None => Err(refuse(rejection::NOT_FOUND, "AI 员工不存在")),
        Some(existing) => {
            let stem = ids::resource_id(employee_id, bytes);
            let file_name = text::join2(stem.as_str(), ".webp");
            let mut product = existing.duplicate();
            let previous = product.avatar_url;
            product.avatar_url = Some(file_name.clone());
            product.updated_at = now;
            Ok(AvatarUpload { product, file_name, previous })
        },
    }
}

/// Receives a picture of some size, now.
pub fn upload_ai_employee_avatar(
    employee_id: &str,
    size: usize,
    products: &Vec<AiEmployeeProduct>,
) -> (r: Result<AvatarUpload, Rejection>)
    ensures
        exists|bytes: Seq<u8>, now: i64|
            ids::is_random_uuid(bytes) && 0 <= now <= clock::LAST_SECOND && rejection::outcome(r)
                == #[trigger] upload_outcome(
                employee_id@,
                size as int,
                text::views(products@),
                bytes,
                now,
            ),
{
    let bytes = ids::random_uuid();
    let now = clock::now();
    upload_avatar_at(employee_id, size, products, &bytes, now)
}

/// What a request for the picture of an AI employee comes to: the name of its
/// file.
pub open spec fn avatar_outcome(
    employee_id: Seq<char>,
    products: Seq<catalog::AiEmployeeProductView>,
) -> Result<Seq<char>, rejection::RejectionView> {
    match catalog::product_with(products, employee_id) {
        None => Err(rejection::refusal(rejection::NOT_FOUND, "AI 员工不存在"@)),
        Some(product) => match product.avatar_url {
            None => Err(rejection::refusal(rejection::NOT_FOUND, "头像不存在"@)),
            Some(file_name) => Ok(file_name),
        },
    }
}

/// The name of the file of the picture of an AI employee.
pub fn get_ai_employee_avatar(employee_id: &str, products: &Vec<AiEmployeeProduct>) -> (r: Result<
    String,
    Rejection,
>)
    ensures
        rejection::outcome(r) == avatar_outcome(employee_id@, text::views(products@)),
{
    match lookup::find(products, employee_id) {
        None => Err(refuse(rejection::NOT_FOUND, "AI 员工不存在")),
        Some(product) => match &product.avatar_url {
            None => Err(refuse(rejection::NOT_FOUND, "头像不存在")),
            Some(file_name) => Ok(file_name.clone()),
        },
    }
}

/// A picture that was received is the one that is given out afterwards, and
/// nothing else about the AI employee but the time of its change is touched.
pub proof fn law_received_picture_is_given_out(
    employee_id: Seq<char>,
    size: int,
    products: Seq<catalog::AiEmployeeProductView>,
    bytes: Seq<u8>,
    now: i64,
)
    ensures
        upload_outcome(employee_id, size, products, bytes, now) matches Ok(upload) ==> {
            &&& avatar_outcome(employee_id, replaced_product(products, upload.product)) == Ok::<
                Seq<char>,
                rejection::RejectionView,
            >(upload.file_name)
            &&& catalog::product_with(products, employee_id) == Some(
                catalog::AiEmployeeProductView {
                    avatar_url: upload.previous,
                    updated_at: catalog::product_with(products, employee_id)->Some_0.updated_at,
                    ..upload.product
                },
            )
        },
{
    match upload_outcome(employee_id, size, products, bytes, now) {
        Ok(upload) => {
            lookup::lemma_found::<AiEmployeeProduct>(products, employee_id);
            lemma_replaced_is_found(products, upload.product, employee_id);
        },
        Err(_) => {},
    }
}

/// The AI employees with one of them as it is now.
pub open spec fn replaced_product(
    products: Seq<catalog::AiEmployeeProductView>,
    product: catalog::AiEmployeeProductView,
) -> Seq<catalog::AiEmployeeProductView> {
    products.map_values(
        |p: catalog::AiEmployeeProductView|
            if p.id == product.id {
                product
            } else {
                p
            },
    )
}

proof fn lemma_replaced_is_found(
    products: Seq<catalog::AiEmployeeProductView>,
    product: catalog::AiEmployeeProductView,
    id: Seq<char>,
)
    requires
        catalog::product_with(products, id) is Some,
        product.id == id,
    ensures
        catalog::product_with(replaced_product(products, product), id) == Some(product),
    decreases products.len(),
{
    let after = replaced_product(products, product);
    if products[0].id != id {
        assert(after.skip(1) =~= replaced_product(products.skip(1), product));
        lemma_replaced_is_found(products.skip(1), product, id);
    }
}

/// A picture is received exactly where it has between one byte and five megabytes
/// and its AI employee is there. It is kept under a name of its own: that of the AI
/// employee, a random one and the ending of the format. The AI employee has it in
/// place of the one before, which is handed back.
pub proof fn law_picture_is_received_under_its_own_name(
    employee_id: Seq<char>,
    size: int,
    products: Seq<catalog::AiEmployeeProductView>,
    bytes: Seq<u8>,
    now: i64,
)
    requires
        size >= 0,
    ensures
        upload_outcome(employee_id, size, products, bytes, now) matches Ok(upload) ==> {
            let before = lookup::found::<AiEmployeeProduct>(products, employee_id)->Some_0;
            &&& upload.file_name == employee_id + "-"@ + ids::hyphenated(bytes) + ".webp"@
            &&& upload.product.avatar_url == Some(upload.file_name)
            &&& upload.product.updated_at == now
            &&& upload.product.id == employee_id
            &&& upload.previous == before.avatar_url
        },
        upload_outcome(employee_id, size, products, bytes, now) is Ok <==> {
            &&& 1 <= size <= 5 * 1024 * 1024
            &&& lookup::found::<AiEmployeeProduct>(products, employee_id) is Some
        },
{
    lookup::lemma_found::<AiEmployeeProduct>(products, employee_id);
}

/// The picture of an AI employee is the one that the AI employee has, and there is
/// none where it has none.
pub proof fn law_picture_is_that_of_the_employee(
    employee_id: Seq<char>,
    products: Seq<catalog::AiEmployeeProductView>,
)
    ensures
        avatar_outcome(employee_id, products) matches Ok(name) ==> exists|i: int|
            0 <= i < products.len() && (#[trigger] products[i]).id == employee_id
                && products[i].avatar_url == Some(name),
        avatar_outcome(employee_id, products) is Ok <==> (lookup::found::<AiEmployeeProduct>(
            products,
            employee_id,
        ) matches Some(product) && product.avatar_url is Some),
{
    lookup::lemma_found::<AiEmployeeProduct>(products, employee_id);
    match catalog::product_with(products, employee_id) {
        Some(product) => {
            let i = products.index_of(product);
            assert(products[i] == product);
        },
        None => {},
    }
}

/// Putting an AI employee in its place changes no other one.
pub proof fn law_replacing_changes_one_employee(
    products: Seq<catalog::AiEmployeeProductView>,
    product: catalog::AiEmployeeProductView,
    i: int,
)
    requires
        0 <= i < products.len(),
    ensures
        replaced_product(products, product).len() == products.len(),
        replaced_product(products, product)[i] == (if products[i].id == product.id {
            product
        } else {
            products[i]
        }),
{
}

/// A picture that is not received is too large or empty, or its AI employee is not
/// there.
pub proof fn law_refused_picture_says_why(
    employee_id: Seq<char>,
    size: int,
    products: Seq<catalog::AiEmployeeProductView>,
    bytes: Seq<u8>,
    now: i64,
)
    requires
        size >= 0,
    ensures
        upload_outcome(employee_id, size, products, bytes, now) matches Err(e) ==> {
            if 1 <= size <= 5 * 1024 * 1024 {
                e.status == 404
            } else {
                e.status == 400
            }
        },
        avatar_outcome(employee_id, products) matches Err(e) ==> e.status == 404,
{
}

} // verus!
