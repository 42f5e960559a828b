//! Identifiers of resources, made of random UUIDs.

use vstd::prelude::*;
use vstd::string::*;

use crate::clock;
use crate::text;

verus! {

/// The lower case hexadecimal digit of a number below sixteen.
pub open spec fn hex_digit(n: int) -> char {
    if n < 10 {
        ('0' as u32 + n) as char
    } else {
        ('a' as u32 + (n - 10)) as char
    }
}

/// Two hexadecimal digits for each byte.
pub open spec fn hex(bytes: Seq<u8>) -> Seq<char> {
    Seq::new(
        2 * bytes.len(),
        |i: int|
            hex_digit(
                if i % 2 == 0 {
                    bytes[i / 2] as int / 16
                } else {
                    bytes[i / 2] as int % 16
                },
            ),
    )
}

/// Whether a character is a lower case hexadecimal digit.
pub open spec fn is_hex_digit(c: char) -> bool {
    '0' <= c <= '9' || 'a' <= c <= 'f'
}

/// Nothing but hexadecimal digits is in the digits of some bytes.
pub proof fn lemma_hex_plain(bytes: Seq<u8>)
    ensures
        forall|i: int| 0 <= i < hex(bytes).len() ==> is_hex_digit(#[trigger] hex(bytes)[i]),
{
}

/// The digits of sixteen bytes in groups of 8, 4, 4, 4 and 12.
pub open spec fn hyphenated(bytes: Seq<u8>) -> Seq<char> {
    let h = hex(bytes);
    h.subrange(0, 8) + seq!['-'] + h.subrange(8, 12) + seq!['-'] + h.subrange(12, 16) + seq!['-']
        + h.subrange(16, 20) + seq!['-'] + h.subrange(20, 32)
}

/// Whether sixteen bytes are those of a random UUID (version 4).
pub open spec fn is_random_uuid(bytes: Seq<u8>) -> bool {
    bytes.len() == 16 && bytes[6] as int / 16 == 4 && bytes[8] as int / 64 == 2
}

/// `uuid::Uuid::new_v4` makes a random UUID; its bytes carry the version and
/// the variant.
#[verifier::external_body]
pub(crate) fn random_uuid() -> (r: Vec<u8>)
    ensures
        is_random_uuid(r@),
{
    uuid::Uuid::new_v4().as_bytes().to_vec()
}

/// `uuid::Uuid::simple` writes the bytes as 32 hexadecimal digits.
#[verifier::external_body]
pub(crate) fn simple_text(bytes: &Vec<u8>) -> (r: String)
    requires
        bytes@.len() == 16,
    ensures
        r@ == hex(bytes@),
{
    uuid::Uuid::from_slice(bytes).unwrap().simple().to_string()
}

/// The `Display` of `uuid::Uuid` writes the digits in hyphenated groups.
#[verifier::external_body]
pub(crate) fn hyphenated_text(bytes: &Vec<u8>) -> (r: String)
    requires
        bytes@.len() == 16,
    ensures
        r@ == hyphenated(bytes@),
{
    uuid::Uuid::from_slice(bytes).unwrap().to_string()
}

/// The identifier of a resource: a prefix, a hyphen and a UUID.
pub fn resource_id(prefix: &str, bytes: &Vec<u8>) -> (r: String)
    requires
        bytes@.len() == 16,
    ensures
        r@ == prefix@ + "-"@ + hyphenated(bytes@),
{
    let digits = hyphenated_text(bytes);
    text::join3(prefix, "-", digits.as_str())
}

/// The identifier of a record: a prefix and the digits of a UUID.
pub fn record_id(prefix: &str, bytes: &Vec<u8>) -> (r: String)
    requires
        bytes@.len() == 16,
    ensures
        r@ == prefix@ + hex(bytes@),
{
    let digits = simple_text(bytes);
    text::join2(prefix, digits.as_str())
}

/// Whether a text is a resource identifier with the given prefix.
pub open spec fn is_resource_id(id: Seq<char>, prefix: Seq<char>) -> bool {
    exists|bytes: Seq<u8>| #[trigger]
        is_random_uuid(bytes) && id == prefix + "-"@ + hyphenated(bytes)
}

/// Whether a text is a record identifier with the given prefix.
pub open spec fn is_record_id(id: Seq<char>, prefix: Seq<char>) -> bool {
    exists|bytes: Seq<u8>| #[trigger] is_random_uuid(bytes) && id == prefix + hex(bytes)
}

/// Whether a text can be a resource identifier made at some time.
pub open spec fn is_resource_id_at(id: Seq<char>, prefix: Seq<char>, now: i64) -> bool {
    is_resource_id(id, prefix) && 0 <= now <= clock::LAST_SECOND
}

/// Whether a text can be a record identifier made at some time.
pub open spec fn is_record_id_at(id: Seq<char>, prefix: Seq<char>, now: i64) -> bool {
    is_record_id(id, prefix) && 0 <= now <= clock::LAST_SECOND
}

/// A new identifier of a resource.
pub fn generated_resource_id(prefix: &str) -> (r: String)
    ensures
        is_resource_id(r@, prefix@),
{
    let bytes = random_uuid();
    resource_id(prefix, &bytes)
}

/// A new identifier of a record.
pub fn generated_record_id(prefix: &str) -> (r: String)
    ensures
        is_record_id(r@, prefix@),
{
    let bytes = random_uuid();
    record_id(prefix, &bytes)
}

/// The first six digits of a UUID in upper case.
pub open spec fn short_code(bytes: Seq<u8>) -> Seq<char> {
    hex(bytes).take(6).map_values(|c: char| text::upper_char(c))
}

/// The number of an order: `YY`, the date, a hyphen and a short code.
pub open spec fn order_number_of(date: Seq<char>, bytes: Seq<u8>) -> Seq<char> {
    "YY"@ + date + "-"@ + short_code(bytes)
}

/// The number of an order with a given date and UUID.
pub fn order_number_from(date: &str, bytes: &Vec<u8>) -> (r: String)
    requires
        bytes@.len() == 16,
    ensures
        r@ == order_number_of(date@, bytes@),
{
    let digits = text::chars_of(simple_text(bytes).as_str());
    let mut code = String::new();
    let mut i: usize = 0;
    while i < 6
        invariant
            i <= 6,
            bytes@.len() == 16,
            digits@ == hex(bytes@),
            code@ == short_code(bytes@).take(i as int),
        decreases 6 - i,
    {
        code.push(digits[i].to_ascii_uppercase());
        i = i + 1;
        assert(short_code(bytes@).take(i as int) =~= short_code(bytes@).take(i - 1).push(
            short_code(bytes@)[i - 1],
        ));
    }
    assert(short_code(bytes@).take(6) =~= short_code(bytes@));
    text::join3("YY", date, "-").concat(code.as_str())
}

/// Whether a text can be the number of an order made at a second: it has the
/// date of that second.
pub open spec fn is_order_number(number: Seq<char>, second: int) -> bool {
    exists|bytes: Seq<u8>| #[trigger]
        is_random_uuid(bytes) && number == order_number_of(clock::date_stamp_of(second), bytes)
}

/// A new order number for an order made at `now`.
pub fn new_order_number(now: i64) -> (r: String)
    requires
        clock::in_calendar(now as int),
    ensures
        is_order_number(r@, now as int),
{
    let bytes = random_uuid();
    order_number_from(clock::date_stamp(now).as_str(), &bytes)
}

/// The number that a hexadecimal digit stands for.
pub open spec fn digit_value(c: char) -> int {
    if '0' <= c <= '9' {
        c as int - '0' as int
    } else {
        c as int - 'a' as int + 10
    }
}

/// The digits of bytes read back as the bytes, two digits for each.
pub proof fn law_digits_read_back(bytes: Seq<u8>, i: int)
    requires
        0 <= i < bytes.len(),
    ensures
        hex(bytes).len() == 2 * bytes.len(),
        16 * digit_value(hex(bytes)[2 * i]) + digit_value(hex(bytes)[2 * i + 1]) == bytes[i],
{
    assert((2 * i) % 2 == 0 && (2 * i) / 2 == i);
    assert((2 * i + 1) % 2 == 1 && (2 * i + 1) / 2 == i);
}

/// Different bytes have different digits, so different UUIDs make different
/// identifiers.
pub proof fn law_identifiers_differ(a: Seq<u8>, b: Seq<u8>, prefix: Seq<char>)
    requires
        a.len() == 16,
        b.len() == 16,
        a != b,
    ensures
        hex(a) != hex(b),
        prefix + hex(a) != prefix + hex(b),
        prefix + "-"@ + hyphenated(a) != prefix + "-"@ + hyphenated(b),
{
    let k = choose|k: int| 0 <= k < 16 && a[k] != b[k];
    assert(exists|k: int| 0 <= k < 16 && a[k] != b[k]) by {
        if forall|k: int| 0 <= k < 16 ==> a[k] == b[k] {
            assert(a =~= b);
        }
    }
    law_digits_read_back(a, k);
    law_digits_read_back(b, k);
    let at = if hex(a)[2 * k] != hex(b)[2 * k] {
        2 * k
    } else {
        2 * k + 1
    };
    assert(hex(a)[at] != hex(b)[at]);
    assert((prefix + hex(a))[prefix.len() + at] == hex(a)[at]);
    assert((prefix + hex(b))[prefix.len() + at] == hex(b)[at]);
    let place = hyphen_place(at);
    law_uuid_is_written_in_groups(a, at);
    law_uuid_is_written_in_groups(b, at);
    let front = prefix + "-"@;
    assert((front + hyphenated(a))[front.len() + place] == hyphenated(a)[place]);
    assert((front + hyphenated(b))[front.len() + place] == hyphenated(b)[place]);
}

/// Where a digit of a UUID stands once hyphens are between the groups.
pub open spec fn hyphen_place(at: int) -> int {
    if at < 8 {
        at
    } else if at < 12 {
        at + 1
    } else if at < 16 {
        at + 2
    } else if at < 20 {
        at + 3
    } else {
        at + 4
    }
}

/// A UUID is written as its 32 digits with hyphens behind the eighth, the twelfth,
/// the sixteenth and the twentieth.
pub proof fn law_uuid_is_written_in_groups(bytes: Seq<u8>, at: int)
    requires
        bytes.len() == 16,
        0 <= at < 32,
    ensures
        hyphenated(bytes).len() == 36,
        hyphenated(bytes)[8] == '-',
        hyphenated(bytes)[13] == '-',
        hyphenated(bytes)[18] == '-',
        hyphenated(bytes)[23] == '-',
        hyphenated(bytes)[hyphen_place(at)] == hex(bytes)[at],
{
}

/// The number of an order is made of `YY`, the date, a hyphen and six digits in
/// upper case.
pub proof fn law_order_number_has_date_and_code(date: Seq<char>, bytes: Seq<u8>, i: int)
    requires
        bytes.len() == 16,
        0 <= i < 6,
    ensures
        order_number_of(date, bytes).len() == date.len() + 9,
        order_number_of(date, bytes).take(2) == "YY"@,
        order_number_of(date, bytes).subrange(2, 2 + date.len() as int) == date,
        order_number_of(date, bytes)[2 + date.len() as int] == '-',
        '0' <= order_number_of(date, bytes)[3 + date.len() + i] <= '9' || 'A' <= order_number_of(
            date,
            bytes,
        )[3 + date.len() + i] <= 'F',
{
    reveal_strlit("YY");
    reveal_strlit("-");
    let number = order_number_of(date, bytes);
    assert("YY"@.len() == 2);
    assert("-"@.len() == 1);
    assert(number.take(2) =~= "YY"@);
    assert(number.subrange(2, 2 + date.len() as int) =~= date);
    assert(number[2 + date.len() as int] == "-"@[0]);
    lemma_hex_plain(bytes);
    let digit = hex(bytes)[i];
    assert(is_hex_digit(digit));
    assert(short_code(bytes)[i] == text::upper_char(digit));
    assert(number[3 + date.len() + i] == short_code(bytes)[i]);
}

} // verus!
