//! The audit log: which requests are kept, under which title, and for which
//! customer.

use vstd::prelude::*;
use vstd::string::*;

use crate::clock;
use crate::copying::{duplicate_opt, Duplicate};
use crate::json;
use crate::lookup;
use crate::lookup::Keyed;
use crate::sorting;
use crate::sorting::Ranked;
use crate::text;
use crate::versions;

verus! {

/// An entry of the audit log.
pub struct AuditLogRecord {
    pub id: i64,
    pub created_at: i64,
    pub level: String,
    pub source: String,
    pub endpoint_title: String,
    pub message: String,
    pub ip_address: Option<String>,
    pub method: Option<String>,
    pub path: Option<String>,
    pub status_code: Option<u16>,
    pub duration_ms: Option<u64>,
    pub user_agent: Option<String>,
    pub response_body: Option<String>,
    pub customer_id: Option<String>,
    pub customer_name: String,
}

/// What a `AuditLogRecord` holds.
#[verifier::ext_equal]
pub struct AuditLogRecordView {
    pub id: i64,
    pub created_at: i64,
    pub level: Seq<char>,
    pub source: Seq<char>,
    pub endpoint_title: Seq<char>,
    pub message: Seq<char>,
    pub ip_address: Option<Seq<char>>,
    pub method: Option<Seq<char>>,
    pub path: Option<Seq<char>>,
    pub status_code: Option<u16>,
    pub duration_ms: Option<u64>,
    pub user_agent: Option<Seq<char>>,
    pub response_body: Option<Seq<char>>,
    pub customer_id: Option<Seq<char>>,
    pub customer_name: Seq<char>,
}

impl View for AuditLogRecord {
    type V = AuditLogRecordView;

    open spec fn view(&self) -> AuditLogRecordView {
        AuditLogRecordView {
            id: self.id,
            created_at: self.created_at,
            level: self.level@,
            source: self.source@,
            endpoint_title: self.endpoint_title@,
            message: self.message@,
            ip_address: text::opt_view(self.ip_address),
            method: text::opt_view(self.method),
            path: text::opt_view(self.path),
            status_code: self.status_code,
            duration_ms: self.duration_ms,
            user_agent: text::opt_view(self.user_agent),
            response_body: text::opt_view(self.response_body),
            customer_id: text::opt_view(self.customer_id),
            customer_name: self.customer_name@,
        }
    }
}

impl Duplicate for AuditLogRecord {
    fn duplicate(&self) -> (r: Self) {
        AuditLogRecord {
            id: self.id,
            created_at: self.created_at,
            level: self.level.clone(),
            source: self.source.clone(),
            endpoint_title: self.endpoint_title.clone(),
            message: self.message.clone(),
            ip_address: duplicate_opt(&self.ip_address),
            method: duplicate_opt(&self.method),
            path: duplicate_opt(&self.path),
            status_code: self.status_code,
            duration_ms: self.duration_ms,
            user_agent: duplicate_opt(&self.user_agent),
            response_body: duplicate_opt(&self.response_body),
            customer_id: duplicate_opt(&self.customer_id),
            customer_name: self.customer_name.clone(),
        }
    }
}

/// The customer that an entry of the audit log is about.
pub struct AuditLogCustomer {
    pub customer_id: String,
    pub customer_name: String,
}

/// What a `AuditLogCustomer` holds.
#[verifier::ext_equal]
pub struct AuditLogCustomerView {
    pub customer_id: Seq<char>,
    pub customer_name: Seq<char>,
}

impl View for AuditLogCustomer {
    type V = AuditLogCustomerView;

    open spec fn view(&self) -> AuditLogCustomerView {
        AuditLogCustomerView {
            customer_id: self.customer_id@,
            customer_name: self.customer_name@,
        }
    }
}

impl Duplicate for AuditLogCustomer {
    fn duplicate(&self) -> (r: Self) {
        AuditLogCustomer {
            customer_id: self.customer_id.clone(),
            customer_name: self.customer_name.clone(),
        }
    }
}

/// Whose an order is.
pub struct OrderOwner {
    pub order_id: String,
    pub customer_id: String,
}

/// What a `OrderOwner` holds.
#[verifier::ext_equal]
pub struct OrderOwnerView {
    pub order_id: Seq<char>,
    pub customer_id: Seq<char>,
}

impl View for OrderOwner {
    type V = OrderOwnerView;

    open spec fn view(&self) -> OrderOwnerView {
        OrderOwnerView {
            order_id: self.order_id@,
            customer_id: self.customer_id@,
        }
    }
}

/// Whose a license is, and the name of the customer when it was issued.
pub struct LicenseOwner {
    pub license_id: String,
    pub subject: String,
    pub customer_name_snapshot: String,
}

/// What a `LicenseOwner` holds.
#[verifier::ext_equal]
pub struct LicenseOwnerView {
    pub license_id: Seq<char>,
    pub subject: Seq<char>,
    pub customer_name_snapshot: Seq<char>,
}

impl View for LicenseOwner {
    type V = LicenseOwnerView;

    open spec fn view(&self) -> LicenseOwnerView {
        LicenseOwnerView {
            license_id: self.license_id@,
            subject: self.subject@,
            customer_name_snapshot: self.customer_name_snapshot@,
        }
    }
}

/// A request that was answered.
pub struct AuditedRequest {
    pub method: String,
    pub path: String,
    pub status_code: u16,
    pub ip_address: String,
    pub elapsed_ms: u128,
    pub user_agent: Option<String>,
    /// The body of the answer, where it is JSON and could be read.
    pub json_body: Option<Vec<u8>>,
}

impl Keyed for AuditLogCustomer {
    open spec fn key_of(record: AuditLogCustomerView) -> Seq<char> {
        record.customer_id
    }

    fn has_key(&self, key: &str) -> (r: bool) {
        text::same(self.customer_id.as_str(), key)
    }
}

impl Keyed for OrderOwner {
    open spec fn key_of(record: OrderOwnerView) -> Seq<char> {
        record.order_id
    }

    fn has_key(&self, key: &str) -> (r: bool) {
        text::same(self.order_id.as_str(), key)
    }
}

impl Keyed for LicenseOwner {
    open spec fn key_of(record: LicenseOwnerView) -> Seq<char> {
        record.license_id
    }

    fn has_key(&self, key: &str) -> (r: bool) {
        text::same(self.license_id.as_str(), key)
    }
}

impl Ranked for AuditLogRecord {
    open spec fn rank_le(a: AuditLogRecordView, b: AuditLogRecordView) -> bool {
        a.id >= b.id
    }

    proof fn rank_total(a: AuditLogRecordView, b: AuditLogRecordView) {
    }

    proof fn rank_transitive(a: AuditLogRecordView, b: AuditLogRecordView, c: AuditLogRecordView) {
    }

    fn may_precede(&self, other: &Self) -> (r: bool) {
        self.id >= other.id
    }
}

/// Whether a path lies below a prefix and ends with a suffix.
pub open spec fn lies_between(path: Seq<char>, prefix: Seq<char>, suffix: Seq<char>) -> bool {
    text::begins_with(path, prefix) && text::finishes_with(path, suffix)
}

/// Whether a path lies below a prefix and ends with a suffix.
fn between(path: &str, prefix: &str, suffix: &str) -> (r: bool)
    ensures
        r == lies_between(path@, prefix@, suffix@),
{
    text::starts_with(path, prefix) && text::ends_with(path, suffix)
}

/// The title of an endpoint that is not known by its whole path.
pub open spec fn nested_title(path: Seq<char>) -> Seq<char> {
    if lies_between(path, "/api/licenses/"@, "/status"@) {
        "许可证状态校验"@
    } else if lies_between(path, "/api/licenses/"@, "/activate"@) {
        "许可证激活"@
    } else if lies_between(path, "/api/licenses/"@, "/destroy"@) {
        "许可证销毁"@
    } else if lies_between(path, "/api/orders/"@, "/payment"@) {
        "登记订单回款"@
    } else if lies_between(path, "/api/orders/"@, "/cancel"@) {
        "取消订单"@
    } else if text::begins_with(path, "/api/orders/"@) {
        "编辑订单"@
    } else if text::begins_with(path, "/api/customers/"@) {
        "客户资料"@
    } else if text::begins_with(path, "/api/ai-employees/"@) {
        "AI 员工商品状态"@
    } else if lies_between(path, "/api/market/ai-employees/"@, "/test-purchase"@) {
        "AI 员工测试购买"@
    } else if text::begins_with(path, "/api/skills/"@) {
        "Skill 状态"@
    } else {
        "运营接口"@
    }
}

/// The title of an endpoint.
pub open spec fn title_of(path: Seq<char>, method: Seq<char>) -> Seq<char> {
    if path == "/healthz"@ {
        "服务健康检查"@
    } else if path == "/api/session"@ {
        "管理员会话"@
    } else if path == "/api/platform-tools"@ {
        "平台工具列表"@
    } else if path == "/api/logs"@ {
        "运营审计日志"@
    } else if path == "/api/customers"@ {
        if method == "GET"@ {
            "客户列表"@
        } else {
            "创建客户"@
        }
    } else if path == "/api/orders"@ {
        if method == "GET"@ {
            "订单列表"@
        } else {
            "创建订单"@
        }
    } else if path == "/api/licenses"@ {
        if method == "GET"@ {
            "许可证列表"@
        } else {
            "签发许可证"@
        }
    } else if path == "/api/finance/summary"@ {
        "财务汇总"@
    } else if path == "/api/transactions"@ {
        "回款流水"@
    } else if path == "/api/ai-employees"@ {
        "AI 员工商品"@
    } else if path == "/api/market/ai-employees"@ {
        "AI 员工市场目录"@
    } else if path == "/api/skills"@ {
        "Skills 管理"@
    } else if path == "/api/skills/import"@ {
        "导入 Skill"@
    } else {
        nested_title(path)
    }
}

/// The title of an endpoint that is not known by its whole path.
fn nested_endpoint_title(path: &str) -> (r: &'static str)
    ensures
        r@ == nested_title(path@),
{
    if between(path, "/api/licenses/", "/status") {
        "许可证状态校验"
    } else if between(path, "/api/licenses/", "/activate") {
        "许可证激活"
    } else if between(path, "/api/licenses/", "/destroy") {
        "许可证销毁"
    } else if between(path, "/api/orders/", "/payment") {
        "登记订单回款"
    } else if between(path, "/api/orders/", "/cancel") {
        "取消订单"
    } else if text::starts_with(path, "/api/orders/") {
        "编辑订单"
    } else if text::starts_with(path, "/api/customers/") {
        "客户资料"
    } else if text::starts_with(path, "/api/ai-employees/") {
        "AI 员工商品状态"
    } else if between(path, "/api/market/ai-employees/", "/test-purchase") {
        "AI 员工测试购买"
    } else if text::starts_with(path, "/api/skills/") {
        "Skill 状态"
    } else {
        "运营接口"
    }
}

/// The title of an endpoint.
pub fn endpoint_title(path: &str, method: &str) -> (r: &'static str)
    ensures
        r@ == title_of(path@, method@),
{
    let reads = text::same(method, "GET");
    if text::same(path, "/healthz") {
        "服务健康检查"
    } else if text::same(path, "/api/session") {
        "管理员会话"
    } else if text::same(path, "/api/platform-tools") {
        "平台工具列表"
    } else if text::same(path, "/api/logs") {
        "运营审计日志"
    } else if text::same(path, "/api/customers") {
        if reads {
            "客户列表"
        } else {
            "创建客户"
        }
    } else if text::same(path, "/api/orders") {
        if reads {
            "订单列表"
        } else {
            "创建订单"
        }
    } else if text::same(path, "/api/licenses") {
        if reads {
            "许可证列表"
        } else {
            "签发许可证"
        }
    } else if text::same(path, "/api/finance/summary") {
        "财务汇总"
    } else if text::same(path, "/api/transactions") {
        "回款流水"
    } else if text::same(path, "/api/ai-employees") {
        "AI 员工商品"
    } else if text::same(path, "/api/market/ai-employees") {
        "AI 员工市场目录"
    } else if text::same(path, "/api/skills") {
        "Skills 管理"
    } else if text::same(path, "/api/skills/import") {
        "导入 Skill"
    } else {
        nested_endpoint_title(path)
    }
}

/// Whether a header says that a request comes from the management UI.
pub open spec fn comes_from_ui(
    header: Option<Seq<char>>,
    configured: Option<Seq<char>>,
) -> bool {
    header matches Some(value) && {
        ||| configured matches Some(origin) && !text::blank(origin) && text::begins_with(
            value,
            origin,
        )
        ||| text::begins_with(value, "http://127.0.0.1:8778"@)
        ||| text::begins_with(value, "http://localhost:8778"@)
    }
}

/// Whether a header says that a request comes from the management UI.
fn from_ui(header: &Option<String>, configured: &Option<String>) -> (r: bool)
    ensures
        r == comes_from_ui(text::opt_view(*header), text::opt_view(*configured)),
{
    match header {
        None => false,
        Some(value) => {
            let by_origin = match configured {
                Some(origin) => !text::is_blank(origin.as_str()) && text::starts_with(
                    value.as_str(),
                    origin.as_str(),
                ),
                None => false,
            };
            by_origin || text::starts_with(value.as_str(), "http://127.0.0.1:8778")
                || text::starts_with(value.as_str(), "http://localhost:8778")
        },
    }
}

/// Whether a request is not audited: it reads the audit log, or its `Origin`
/// or `Referer` header says that it comes from the management UI.
pub open spec fn is_unaudited(
    origin: Option<Seq<char>>,
    referer: Option<Seq<char>>,
    configured: Option<Seq<char>>,
    path: Seq<char>,
) -> bool {
    path == "/api/logs"@ || comes_from_ui(origin, configured) || comes_from_ui(
        referer,
        configured,
    )
}

/// Whether a request is not audited.
pub fn is_operation_frontend_request(
    origin: &Option<String>,
    referer: &Option<String>,
    configured: &Option<String>,
    path: &str,
) -> (r: bool)
    ensures
        r == is_unaudited(
            text::opt_view(*origin),
            text::opt_view(*referer),
            text::opt_view(*configured),
            path@,
        ),
{
    text::same(path, "/api/logs") || from_ui(origin, configured) || from_ui(referer, configured)
}

/// Whether the body of an answer is JSON, by its `Content-Type` header.
pub fn response_is_json(content_type: &Option<String>) -> (r: bool)
    ensures
        r == (text::opt_view(*content_type) matches Some(value) && text::begins_with(
            value,
            "application/json"@,
        )),
{
    match content_type {
        Some(value) => text::starts_with(value.as_str(), "application/json"),
        None => false,
    }
}

/// How many bytes of an answer are kept at most.
pub const KEPT_BYTES: usize = 32_768;

/// How many bytes the note on a shortened answer has.
pub const NOTE_BYTES: usize = 22;

/// How many bytes a text has in UTF-8.
pub open spec fn byte_len(s: Seq<char>) -> nat {
    vstd::utf8::encode_utf8(s).len()
}

/// How many bytes a character has in UTF-8.
pub open spec fn width(c: char) -> nat {
    vstd::utf8::encode_scalar(c as u32).len()
}

/// How many of the first characters of a text fit in some bytes.
pub open spec fn fitting(s: Seq<char>, bytes: int) -> nat
    decreases s.len(),
{
    if s.len() == 0 || width(s[0]) > bytes {
        0
    } else {
        1 + fitting(s.skip(1), bytes - width(s[0]))
    }
}

/// What is kept of the text of an answer: where it is longer, the first
/// characters that fit beside a note, and the note.
pub open spec fn shortened(s: Seq<char>) -> Seq<char> {
    if byte_len(s) > KEPT_BYTES {
        s.take(fitting(s, KEPT_BYTES - NOTE_BYTES) as int) + "\n... [响应已截断]"@
    } else {
        s
    }
}

/// How many bytes a character has in UTF-8.
fn char_width(c: char) -> (r: usize)
    ensures
        r == width(c),
        1 <= r <= 4,
{
    let n = c as u32;
    proof {
        vstd::utf8::char_is_scalar(c);
    }
    if n < 0x80 {
        1
    } else if n < 0x800 {
        2
    } else if n < 0x10000 {
        3
    } else {
        4
    }
}

/// The characters that fit are those up to the first one that does not.
proof fn lemma_fitting(s: Seq<char>, bytes: int, k: int)
    requires
        0 <= k <= s.len(),
        byte_len(s.take(k)) <= bytes,
        k < s.len() ==> byte_len(s.take(k)) + width(s[k]) > bytes,
    ensures
        fitting(s, bytes) == k,
        byte_len(s) > bytes <==> k < s.len(),
    decreases s.len(),
{
    if k == 0 {
        assert(s.take(0).len() == 0);
        assert(byte_len(s.take(0)) == 0);
        if s.len() > 0 {
            assert(byte_len(s) == width(s[0]) + byte_len(s.drop_first()));
        }
    } else {
        let rest = s.skip(1);
        let first = s.take(k);
        assert(first.drop_first() =~= rest.take(k - 1));
        assert(byte_len(first) == width(s[0]) + byte_len(rest.take(k - 1)));
        lemma_fitting(rest, bytes - width(s[0]), k - 1);
        assert(s.drop_first() =~= rest);
        assert(byte_len(s) == width(s[0]) + byte_len(rest));
    }
}

proof fn lemma_byte_len_push(s: Seq<char>, c: char)
    ensures
        byte_len(s.push(c)) == byte_len(s) + width(c),
    decreases s.len(),
{
    let more = s.push(c);
    if s.len() == 0 {
        assert(more.drop_first() =~= Seq::<char>::empty());
        assert(byte_len(more.drop_first()) == 0);
    } else {
        lemma_byte_len_push(s.drop_first(), c);
        assert(more.drop_first() =~= s.drop_first().push(c));
    }
}

/// How many of the first characters of a text fit in some bytes.
fn count_fitting(chars: &Vec<char>, limit: usize) -> (r: usize)
    ensures
        r == fitting(chars@, limit as int),
        r <= chars@.len(),
        byte_len(chars@) > limit <==> r < chars@.len(),
{
    let ghost all = chars@;
    let mut left: usize = limit;
    let mut i: usize = 0;
    assert(all.take(0).len() == 0);
    while i < chars.len() && char_width(chars[i]) <= left
        invariant
            i <= chars@.len(),
            chars@ == all,
            left <= limit,
            limit - left == byte_len(all.take(i as int)),
        decreases chars@.len() - i,
    {
        proof {
            lemma_byte_len_push(all.take(i as int), all[i as int]);
            assert(all.take(i + 1) =~= all.take(i as int).push(all[i as int]));
        }
        left = left - char_width(chars[i]);
        i = i + 1;
    }
    proof {
        lemma_fitting(all, limit as int, i as int);
    }
    i
}

/// What is kept of the text of an answer: never more than `KEPT_BYTES` bytes.
pub fn shorten_response(body: String) -> (r: String)
    ensures
        r@ == shortened(body@),
        byte_len(r@) <= KEPT_BYTES,
{
    let ghost all = body@;
    proof {
        law_kept_answer_is_bounded(all);
    }
    let chars = text::chars_of(body.as_str());
    if count_fitting(&chars, KEPT_BYTES) < chars.len() {
        let kept = count_fitting(&chars, KEPT_BYTES - NOTE_BYTES);
        let head = text::text_of(&chars, 0, kept);
        assert(head@ =~= all.take(kept as int));
        head.concat("\n... [响应已截断]")
    } else {
        body
    }
}

proof fn lemma_fitting_fits(s: Seq<char>, bytes: int)
    requires
        bytes >= 0,
    ensures
        fitting(s, bytes) <= s.len(),
        byte_len(s.take(fitting(s, bytes) as int)) <= bytes,
    decreases s.len(),
{
    let k = fitting(s, bytes) as int;
    if k > 0 {
        let rest = s.skip(1);
        lemma_fitting_fits(rest, bytes - width(s[0]));
        let first = s.take(k);
        assert(first.drop_first() =~= rest.take(k - 1));
        assert(byte_len(first) == width(s[0]) + byte_len(rest.take(k - 1)));
    } else {
        assert(byte_len(s.take(0)) == 0);
    }
}

proof fn lemma_byte_len_concat(a: Seq<char>, b: Seq<char>)
    ensures
        byte_len(a + b) == byte_len(a) + byte_len(b),
    decreases a.len(),
{
    if a.len() == 0 {
        assert(a + b =~= b);
    } else {
        lemma_byte_len_concat(a.drop_first(), b);
        assert((a + b).drop_first() =~= a.drop_first() + b);
    }
}

proof fn lemma_note_bytes()
    ensures
        byte_len("\n... [响应已截断]"@) == NOTE_BYTES,
{
    reveal_strlit("\n... [响应已截断]");
    let note = "\n... [响应已截断]"@;
    assert(note.len() == 12);
    assert(note.take(0).len() == 0);
    assert(byte_len(note.take(0)) == 0);
    assert forall|k: int| 1 <= k <= 12 implies byte_len(#[trigger] note.take(k)) == byte_len(
        note.take(k - 1),
    ) + width(note[k - 1]) by {
        lemma_byte_len_push(note.take(k - 1), note[k - 1]);
        assert(note.take(k) =~= note.take(k - 1).push(note[k - 1]));
    }
    assert(byte_len(note.take(6)) == 6);
    assert(note.take(12) =~= note);
}

/// No more than 32 KB are kept of an answer, a short answer is kept whole, and
/// what is kept of a longer one is its beginning and a note.
pub proof fn law_kept_answer_is_bounded(s: Seq<char>)
    ensures
        byte_len(shortened(s)) <= KEPT_BYTES,
        byte_len(s) <= KEPT_BYTES ==> shortened(s) == s,
        byte_len(s) > KEPT_BYTES ==> exists|k: int|
            0 <= k < s.len() && shortened(s) == #[trigger] s.take(k) + "\n... [响应已截断]"@,
{
    if byte_len(s) > KEPT_BYTES {
        let k = fitting(s, KEPT_BYTES - NOTE_BYTES) as int;
        lemma_fitting_fits(s, KEPT_BYTES - NOTE_BYTES);
        lemma_note_bytes();
        lemma_byte_len_concat(s.take(k), "\n... [响应已截断]"@);
        if k == s.len() {
            assert(s.take(k) =~= s);
        }
        assert(shortened(s) == s.take(k) + "\n... [响应已截断]"@);
    }
}

/// What is kept of the body of an answer in JSON: the document without the
/// values of its sensitive fields, indented and shortened.
pub open spec fn sanitized(bytes: Seq<u8>) -> Option<Seq<char>> {
    match json::json_parsed(bytes) {
        None => None,
        Some(tree) => Some(shortened(json::json_pretty(json::redacted(tree)))),
    }
}

/// What is kept of the body of an answer in JSON: nothing exactly where it is
/// no JSON, and never more than `KEPT_BYTES` bytes.
pub fn sanitize_response_body(bytes: &[u8]) -> (r: Option<String>)
    ensures
        text::opt_view(r) == sanitized(bytes@),
        r is None <==> json::json_parsed(bytes@) is None,
        r matches Some(kept) ==> byte_len(kept@) <= KEPT_BYTES,
{
    match json::parse_json(bytes) {
        None => None,
        Some(value) => {
            let clean = json::redact_json_value(value);
            Some(shorten_response(json::pretty_json(&clean)))
        },
    }
}

/// The level of an entry.
pub open spec fn level_of(status_code: int, method: Seq<char>) -> Seq<char> {
    if status_code >= 500 {
        "error"@
    } else if status_code >= 400 {
        "warning"@
    } else if method == "GET"@ {
        "debug"@
    } else {
        "info"@
    }
}

/// The entry for a request that was answered, before its customer is known.
pub open spec fn entry_of(request: AuditedRequest, now: i64) -> AuditLogRecordView {
    AuditLogRecordView {
        id: 0,
        created_at: now,
        level: level_of(request.status_code as int, request.method@),
        source: "request"@,
        endpoint_title: title_of(request.path@, request.method@),
        message: request.method@ + " "@ + request.path@ + " -> "@ + versions::decimal(
            request.status_code as nat,
        ),
        ip_address: Some(request.ip_address@),
        method: Some(request.method@),
        path: Some(request.path@),
        status_code: Some(request.status_code),
        duration_ms: Some(
            if request.elapsed_ms <= u64::MAX {
                request.elapsed_ms as u64
            } else {
                u64::MAX
            },
        ),
        user_agent: text::opt_view(request.user_agent),
        response_body: match request.json_body {
            Some(body) => sanitized(body@),
            None => None,
        },
        customer_id: None,
        customer_name: "无客户"@,
    }
}

/// The entry for a request that was answered at a second.
pub fn audit_entry_at(request: &AuditedRequest, now: i64) -> (r: AuditLogRecord)
    ensures
        r@ == entry_of(*request, now),
{
    let status_code = request.status_code;
    let level = if status_code >= 500 {
        "error"
    } else if status_code >= 400 {
        "warning"
    } else if text::same(request.method.as_str(), "GET") {
        "debug"
    } else {
        "info"
    };
    let message = text::join3(request.method.as_str(), " ", request.path.as_str()).concat(
        " -> ",
    ).concat(versions::decimal_text(status_code as u64).as_str());
    let duration_ms: u64 = if request.elapsed_ms <= u64::MAX as u128 {
        request.elapsed_ms as u64
    } else {
        u64::MAX
    };
    AuditLogRecord {
        id: 0,
        created_at: now,
        level: level.to_string(),
        source: "request".to_string(),
        endpoint_title: endpoint_title(
            request.path.as_str(),
            request.method.as_str(),
        ).to_string(),
        message,
        ip_address: Some(request.ip_address.clone()),
        method: Some(request.method.clone()),
        path: Some(request.path.clone()),
        status_code: Some(status_code),
        duration_ms: Some(duration_ms),
        user_agent: duplicate_opt(&request.user_agent),
        response_body: match &request.json_body {
            Some(body) => sanitize_response_body(body.as_slice()),
            None => None,
        },
        customer_id: None,
        customer_name: "无客户".to_string(),
    }
}

/// The entry for a request that was answered now.
pub fn audit_request(request: &AuditedRequest) -> (r: AuditLogRecord)
    ensures
        exists|now: i64| 0 <= now <= clock::LAST_SECOND && r@ == #[trigger] entry_of(*request, now),
{
    let now = clock::now();
    let ghost entry = entry_of(*request, now);
    audit_entry_at(request, now)
}

/// What the path of a request says of its customer.
pub enum AuditCustomerQuery {
    Nobody,
    Customer(String),
    Order(String),
    License(String),
}

/// What the path of a request says of its customer: the identifier behind the
/// kind of resource.
pub open spec fn path_parts(path: Seq<char>) -> Seq<Seq<char>> {
    text::split_on(text::stripped(path, '/'), '/')
}

/// Whether a path names one resource of a kind.
pub open spec fn names_one(path: Seq<char>, kind: Seq<char>) -> bool {
    let parts = path_parts(path);
    parts.len() >= 3 && parts[0] == "api"@ && parts[1] == kind
}

/// What the path of a request says of its customer.
pub fn audit_customer_query(path: &Option<String>) -> (r: AuditCustomerQuery)
    ensures
        match text::opt_view(*path) {
            None => r is Nobody,
            Some(p) => if names_one(p, "customers"@) {
                r matches AuditCustomerQuery::Customer(id) && id@ == path_parts(p)[2]
            } else if names_one(p, "orders"@) {
                r matches AuditCustomerQuery::Order(id) && id@ == path_parts(p)[2]
            } else if names_one(p, "licenses"@) {
                r matches AuditCustomerQuery::License(id) && id@ == path_parts(p)[2]
            } else {
                r is Nobody
            },
        },
{
    let p = match path {
        Some(p) => p,
        None => {
            return AuditCustomerQuery::Nobody;
        },
    };
    let parts = text::split(text::strip(p.as_str(), '/').as_str(), '/');
    let ghost all = path_parts(p@);
    assert(all == text::views(parts@));
    assert(all.len() == parts@.len());
    if parts.len() < 3 {
        return AuditCustomerQuery::Nobody;
    }
    assert(all[0] == parts@[0]@);
    assert(all[1] == parts@[1]@);
    assert(all[2] == parts@[2]@);
    if !text::same(parts[0].as_str(), "api") {
        return AuditCustomerQuery::Nobody;
    }
    let kind = parts[1].as_str();
    let id = parts[2].clone();
    if text::same(kind, "customers") {
        AuditCustomerQuery::Customer(id)
    } else if text::same(kind, "orders") {
        AuditCustomerQuery::Order(id)
    } else if text::same(kind, "licenses") {
        AuditCustomerQuery::License(id)
    } else {
        AuditCustomerQuery::Nobody
    }
}

/// The customer of a license, with the name it had when the license was
/// issued.
pub open spec fn license_customer(owner: LicenseOwnerView) -> AuditLogCustomerView {
    AuditLogCustomerView {
        customer_id: owner.subject,
        customer_name: if text::blank(owner.customer_name_snapshot) {
            owner.subject
        } else {
            owner.customer_name_snapshot
        },
    }
}

/// The customer that a request is about, by its path.
pub open spec fn customer_for(
    path: Option<Seq<char>>,
    customers: Seq<AuditLogCustomerView>,
    orders: Seq<OrderOwnerView>,
    licenses: Seq<LicenseOwnerView>,
) -> Option<AuditLogCustomerView> {
    match path {
        None => None,
        Some(p) => {
            let id = path_parts(p)[2];
            if names_one(p, "customers"@) {
                lookup::found::<AuditLogCustomer>(customers, id)
            } else if names_one(p, "orders"@) {
                match lookup::found::<OrderOwner>(orders, id) {
                    Some(order) => lookup::found::<AuditLogCustomer>(
                        customers,
                        order.customer_id,
                    ),
                    None => None,
                }
            } else if names_one(p, "licenses"@) {
                match lookup::found::<LicenseOwner>(licenses, id) {
                    Some(owner) => Some(license_customer(owner)),
                    None => None,
                }
            } else {
                None
            }
        },
    }
}

/// The customer that a request is about, by its path.
pub fn resolve_audit_log_customer(
    path: &Option<String>,
    customers: &Vec<AuditLogCustomer>,
    orders: &Vec<OrderOwner>,
    licenses: &Vec<LicenseOwner>,
) -> (r: Option<AuditLogCustomer>)
    ensures
        text::opt_view(r) == customer_for(
            text::opt_view(*path),
            text::views(customers@),
            text::views(orders@),
            text::views(licenses@),
        ),
{
    match audit_customer_query(path) {
        AuditCustomerQuery::Nobody => None,
        AuditCustomerQuery::Customer(id) => match lookup::find(customers, id.as_str()) {
            Some(customer) => Some(customer.duplicate()),
            None => None,
        },
        AuditCustomerQuery::Order(id) => match lookup::find(orders, id.as_str()) {
            Some(order) => match lookup::find(customers, order.customer_id.as_str()) {
                Some(customer) => Some(customer.duplicate()),
                None => None,
            },
            None => None,
        },
        AuditCustomerQuery::License(id) => match lookup::find(licenses, id.as_str()) {
            Some(owner) => Some(
                AuditLogCustomer {
                    customer_id: owner.subject.clone(),
                    customer_name: if text::is_blank(owner.customer_name_snapshot.as_str()) {
                        owner.subject.clone()
                    } else {
                        owner.customer_name_snapshot.clone()
                    },
                },
            ),
            None => None,
        },
    }
}

/// An entry with its customer, or with none.
pub open spec fn attributed(
    record: AuditLogRecordView,
    customer: Option<AuditLogCustomerView>,
) -> AuditLogRecordView {
    match customer {
        Some(c) => AuditLogRecordView {
            customer_id: Some(c.customer_id),
            customer_name: c.customer_name,
            ..record
        },
        None => AuditLogRecordView { customer_id: None, customer_name: "无客户"@, ..record },
    }
}

/// Gives an entry its customer, or none.
pub fn attribute(record: AuditLogRecord, customer: Option<AuditLogCustomer>) -> (r: AuditLogRecord)
    ensures
        r@ == attributed(record@, text::opt_view(customer)),
{
    let mut out = record;
    match customer {
        Some(c) => {
            out.customer_id = Some(c.customer_id);
            out.customer_name = c.customer_name;
        },
        None => {
            out.customer_id = None;
            out.customer_name = "无客户".to_string();
        },
    }
    out
}

/// The customer that an entry lacks, if it lacks one: it has neither the
/// identifier nor the name of a customer, but a path that names one.
pub open spec fn missing_customer(
    record: AuditLogRecordView,
    customers: Seq<AuditLogCustomerView>,
    orders: Seq<OrderOwnerView>,
    licenses: Seq<LicenseOwnerView>,
) -> Option<AuditLogCustomerView> {
    if record.customer_id is None && record.customer_name.len() == 0 {
        customer_for(record.path, customers, orders, licenses)
    } else {
        None
    }
}

/// The customer that an entry lacks, if it lacks one.
pub fn backfill_audit_log_customer(
    record: &AuditLogRecord,
    customers: &Vec<AuditLogCustomer>,
    orders: &Vec<OrderOwner>,
    licenses: &Vec<LicenseOwner>,
) -> (r: Option<AuditLogCustomer>)
    ensures
        text::opt_view(r) == missing_customer(
            record@,
            text::views(customers@),
            text::views(orders@),
            text::views(licenses@),
        ),
{
    if record.customer_id.is_some() || !record.customer_name.as_str().is_empty() {
        return None;
    }
    resolve_audit_log_customer(&record.path, customers, orders, licenses)
}

/// The customers that entries lack, one for each entry.
pub fn backfill_audit_log_customers(
    records: &Vec<AuditLogRecord>,
    customers: &Vec<AuditLogCustomer>,
    orders: &Vec<OrderOwner>,
    licenses: &Vec<LicenseOwner>,
) -> (r: Vec<Option<AuditLogCustomer>>)
    ensures
        r@.len() == records@.len(),
        forall|i: int|
            0 <= i < r@.len() ==> text::opt_view(#[trigger] r@[i]) == missing_customer(
                records@[i]@,
                text::views(customers@),
                text::views(orders@),
                text::views(licenses@),
            ),
{
    let mut out: Vec<Option<AuditLogCustomer>> = Vec::new();
    let mut i: usize = 0;
    while i < records.len()
        invariant
            i <= records@.len(),
            out@.len() == i,
            forall|k: int|
                0 <= k < i ==> text::opt_view(#[trigger] out@[k]) == missing_customer(
                    records@[k]@,
                    text::views(customers@),
                    text::views(orders@),
                    text::views(licenses@),
                ),
        decreases records@.len() - i,
    {
        out.push(backfill_audit_log_customer(&records[i], customers, orders, licenses));
        i = i + 1;
    }
    out
}

/// Which entries are removed from the audit log: those before a second, and
/// all but the newest few.
pub struct PrunePlan {
    pub cutoff: i64,
    pub keep: u32,
}

/// For how many days entries are kept.
pub const KEPT_DAYS: i64 = 90;

/// How many entries are kept.
pub const KEPT_LOGS: u32 = 50_000;

/// Which entries are removed after one was added: those older than the days
/// that entries are kept for, and then all but the newest.
pub fn prune_plan(now: i64) -> (r: PrunePlan)
    requires
        clock::in_calendar(now as int),
    ensures
        r.cutoff == now - KEPT_DAYS * clock::DAY_SECONDS,
        r.keep == KEPT_LOGS,
{
    PrunePlan { cutoff: now - KEPT_DAYS * clock::DAY_SECONDS, keep: KEPT_LOGS }
}

/// The entries that are left once a plan was carried out, of entries in the
/// order in which they were added.
pub open spec fn pruned(logs: Seq<AuditLogRecordView>, plan: PrunePlan) -> Seq<AuditLogRecordView> {
    let recent = logs.filter(|log: AuditLogRecordView| log.created_at >= plan.cutoff);
    if recent.len() > plan.keep {
        recent.skip(recent.len() - plan.keep)
    } else {
        recent
    }
}

/// After an entry was added and the log was pruned, the entry is in the log, the
/// log has no more than fifty thousand entries, and none is older than ninety
/// days.
pub proof fn law_log_stays_within_its_limits(
    logs: Seq<AuditLogRecordView>,
    added: AuditLogRecordView,
    plan: PrunePlan,
    now: i64,
)
    requires
        clock::in_calendar(now as int),
        added.created_at == now,
        plan.cutoff == now - KEPT_DAYS * clock::DAY_SECONDS,
        plan.keep == KEPT_LOGS,
    ensures
        ({
            let left = pruned(logs.push(added), plan);
            &&& 0 < left.len() <= 50_000
            &&& left.last() == added
            &&& forall|i: int|
                0 <= i < left.len() ==> (#[trigger] left[i]).created_at >= now - 90 * 86_400
        }),
{
    let keep = |log: AuditLogRecordView| log.created_at >= plan.cutoff;
    logs.lemma_filter_push(added, keep);
    let recent = logs.push(added).filter(keep);
    assert(recent.last() == added);
    let left = pruned(logs.push(added), plan);
    assert forall|i: int| 0 <= i < left.len() implies (#[trigger] left[i]).created_at >= now - 90
        * 86_400 by {
        let k = i + recent.len() - left.len();
        assert(left[i] == recent[k]);
        logs.push(added).lemma_filter_pred(keep, k);
    }
}

/// How many entries are listed: three hundred, or as many as asked for from
/// one to a thousand.
pub open spec fn listed_count(limit: Option<u32>) -> u32 {
    match limit {
        None => 300,
        Some(n) => if n < 1 {
            1
        } else if n > 1000 {
            1000
        } else {
            n
        },
    }
}

/// How many entries are listed.
pub fn audit_log_limit(limit: Option<u32>) -> (r: u32)
    ensures
        r == listed_count(limit),
        1 <= r <= 1000,
{
    match limit {
        None => 300,
        Some(n) => if n < 1 {
            1
        } else if n > 1000 {
            1000
        } else {
            n
        },
    }
}

/// Whether a character may stand in the name of an HTTP method.
pub open spec fn is_method_char(c: char) -> bool {
    ||| 'a' <= c <= 'z'
    ||| 'A' <= c <= 'Z'
    ||| '0' <= c <= '9'
    ||| c == '!'
    ||| c == '#'
    ||| c == '$'
    ||| c == '%'
    ||| c == '&'
    ||| c == '\''
    ||| c == '*'
    ||| c == '+'
    ||| c == '-'
    ||| c == '.'
    ||| c == '^'
    ||| c == '_'
    ||| c == '`'
    ||| c == '|'
    ||| c == '~'
}

/// Whether a text is the name of an HTTP method.
pub open spec fn is_method(s: Seq<char>) -> bool {
    s.len() > 0 && forall|i: int| 0 <= i < s.len() ==> is_method_char(#[trigger] s[i])
}

/// `http::Method::from_bytes` takes any name of one or more token characters.
#[verifier::external_body]
fn method_accepts(name: &str) -> (r: bool)
    ensures
        r == is_method(name@),
{
    axum::http::Method::from_bytes(name.as_bytes()).is_ok()
}

/// An entry as it is listed: one without a proper title has the one of its
/// endpoint, and one without a customer says so.
pub open spec fn shown(record: AuditLogRecordView) -> AuditLogRecordView {
    AuditLogRecordView {
        endpoint_title: if record.endpoint_title == "运营接口"@ {
            match (record.path, record.method) {
                (Some(path), Some(method)) => if is_method(method) {
                    title_of(path, method)
                } else {
                    record.endpoint_title
                },
                _ => record.endpoint_title,
            }
        } else {
            record.endpoint_title
        },
        customer_name: if record.customer_name.len() == 0 {
            "无客户"@
        } else {
            record.customer_name
        },
        ..record
    }
}

/// Shows an entry.
pub fn show(record: AuditLogRecord) -> (r: AuditLogRecord)
    ensures
        r@ == shown(record@),
{
    let mut out = record;
    if text::same(out.endpoint_title.as_str(), "运营接口") {
        let title: Option<&'static str> = match (&out.path, &out.method) {
            (Some(path), Some(method)) => if method_accepts(method.as_str()) {
                Some(endpoint_title(path.as_str(), method.as_str()))
            } else {
                None
            },
            _ => None,
        };
        match title {
            Some(t) => {
                out.endpoint_title = t.to_string();
            },
            None => {},
        }
    }
    if out.customer_name.as_str().is_empty() {
        out.customer_name = "无客户".to_string();
    }
    out
}

/// Whether an entry is listed: requests for the audit log itself are not.
pub open spec fn is_listed(record: AuditLogRecordView) -> bool {
    record.path != Some("/api/logs"@)
}

/// The entries that are listed, the newest first.
pub open spec fn listed_logs(
    records: Seq<AuditLogRecordView>,
    limit: Option<u32>,
) -> Seq<AuditLogRecordView> {
    let visible = sorting::sorted_by_rank::<AuditLogRecord>(records).filter(
        |x: AuditLogRecordView| is_listed(x),
    ).map_values(|x: AuditLogRecordView| shown(x));
    if visible.len() > listed_count(limit) {
        visible.take(listed_count(limit) as int)
    } else {
        visible
    }
}

/// The entries that are listed, the newest first.
pub fn list_audit_logs(records: Vec<AuditLogRecord>, limit: Option<u32>) -> (r: Vec<AuditLogRecord>)
    ensures
        text::views(r@) == listed_logs(text::views(records@), limit),
{
    let sorted = sorting::stable_sort(records);
    let most = audit_log_limit(limit) as usize;
    let ghost items = sorted@;
    let ghost all = text::views(sorted@);
    let ghost keep = |x: AuditLogRecordView| is_listed(x);
    let ghost display = |x: AuditLogRecordView| shown(x);
    let mut out: Vec<AuditLogRecord> = Vec::new();
    assert(all.take(0).filter(keep) =~= Seq::<AuditLogRecordView>::empty());
    assert(text::views(out@) =~= all.take(0).filter(keep).map_values(display));
    for item in it: sorted
        invariant
            it.seq() == items,
            all == text::views(items),
            keep == (|x: AuditLogRecordView| is_listed(x)),
            display == (|x: AuditLogRecordView| shown(x)),
            text::views(out@) == all.take(it.index() as int).filter(keep).map_values(display),
    {
        let ghost item_view = item@;
        let ghost kept = all.take(it.index() as int).filter(keep);
        proof {
            let at = it.index() as int;
            assert(all[at] == item_view);
            assert(all.take(at + 1) =~= all.take(at).push(item_view));
            all.take(at).lemma_filter_push(item_view, keep);
        }
        let own = match &item.path {
            Some(path) => text::same(path.as_str(), "/api/logs"),
            None => false,
        };
        if !own {
            assert(keep(item_view));
            let entry = show(item);
            proof {
                text::lemma_views_push(out@, entry);
                assert(kept.push(item_view).map_values(display) =~= kept.map_values(display).push(
                    display(item_view),
                ));
            }
            out.push(entry);
        } else {
            assert(!keep(item_view));
        }
    }
    assert(all.take(all.len() as int) =~= all);
    let ghost visible = text::views(out@);
    assert(visible.len() == out@.len());
    if out.len() > most {
        out.truncate(most);
        assert(text::views(out@) =~= visible.take(most as int));
    }
    out
}

/// The audit log never lists requests for itself, and no more entries than the
/// limit.
pub proof fn law_log_does_not_list_itself(
    records: Seq<AuditLogRecordView>,
    limit: Option<u32>,
    i: int,
)
    requires
        0 <= i < listed_logs(records, limit).len(),
    ensures
        listed_logs(records, limit)[i].path != Some("/api/logs"@),
        listed_logs(records, limit).len() <= 1000,
{
    let sorted = sorting::sorted_by_rank::<AuditLogRecord>(records);
    sorted.lemma_filter_pred(|x: AuditLogRecordView| is_listed(x), i);
}

/// An answer that says that the service failed is logged as an error, and one that
/// refuses a request as a warning. Of the others, what only reads is of the lowest
/// level, and what changes something is for information.
pub proof fn law_level_goes_by_the_answer(status_code: int, method: Seq<char>)
    ensures
        level_of(status_code, method) == "error"@ <==> status_code >= 500,
        level_of(status_code, method) == "warning"@ <==> 400 <= status_code < 500,
        level_of(status_code, method) == "debug"@ <==> status_code < 400 && method == "GET"@,
        level_of(status_code, method) == "info"@ <==> status_code < 400 && method != "GET"@,
{
    reveal_strlit("error");
    reveal_strlit("warning");
    reveal_strlit("debug");
    reveal_strlit("info");
    assert("error"@.len() == 5);
    assert("warning"@.len() == 7);
    assert("debug"@.len() == 5);
    assert("info"@.len() == 4);
    assert("error"@[0] == 'e');
    assert("debug"@[0] == 'd');
}

/// The entry for a request holds what the request was: its method, its path, the
/// address and the program that it came from, what it was answered with and how
/// long that took. It belongs to no customer yet.
pub proof fn law_entry_is_of_the_request(request: AuditedRequest, now: i64)
    ensures
        ({
            let entry = entry_of(request, now);
            &&& entry.id == 0
            &&& entry.created_at == now
            &&& entry.level == level_of(request.status_code as int, request.method@)
            &&& entry.source == "request"@
            &&& entry.endpoint_title == title_of(request.path@, request.method@)
            &&& entry.message == request.method@ + " "@ + request.path@ + " -> "@
                + versions::decimal(request.status_code as nat)
            &&& entry.ip_address == Some(request.ip_address@)
            &&& entry.method == Some(request.method@)
            &&& entry.path == Some(request.path@)
            &&& entry.status_code == Some(request.status_code)
            &&& request.elapsed_ms <= u64::MAX ==> (entry.duration_ms matches Some(ms) && ms
                == request.elapsed_ms)
            &&& request.elapsed_ms > u64::MAX ==> entry.duration_ms == Some(u64::MAX)
            &&& request.user_agent is None ==> entry.user_agent is None
            &&& request.user_agent matches Some(agent) ==> entry.user_agent == Some(agent@)
            &&& request.json_body is None ==> entry.response_body is None
            &&& entry.customer_id is None
            &&& entry.customer_name == "无客户"@
        }),
{
}

proof fn lemma_begins(prefix: Seq<char>, rest: Seq<char>)
    ensures
        text::begins_with(prefix + rest, prefix),
{
    assert((prefix + rest).take(prefix.len() as int) =~= prefix);
}

proof fn lemma_finishes(rest: Seq<char>, suffix: Seq<char>)
    ensures
        text::finishes_with(rest + suffix, suffix),
{
    assert((rest + suffix).skip(rest.len() as int) =~= suffix);
}

proof fn lemma_does_not_begin(s: Seq<char>, prefix: Seq<char>, k: int)
    requires
        0 <= k < prefix.len(),
        k < s.len() ==> s[k] != prefix[k],
    ensures
        !text::begins_with(s, prefix),
{
    if text::begins_with(s, prefix) {
        assert(s.take(prefix.len() as int)[k] == s[k]);
    }
}

proof fn lemma_does_not_finish(s: Seq<char>, suffix: Seq<char>)
    requires
        s.len() > 0,
        suffix.len() > 0,
        s.last() != suffix.last(),
    ensures
        !text::finishes_with(s, suffix),
{
    if text::finishes_with(s, suffix) {
        assert(s.skip(s.len() - suffix.len())[suffix.len() - 1] == s[s.len() - 1]);
    }
}

/// A path below the licenses, with whatever identifier, has a title of its own
/// where it ends in the check of the status, the activation or the destruction.
pub proof fn law_license_paths_have_their_titles(id: Seq<char>, method: Seq<char>)
    ensures
        title_of("/api/licenses/"@ + id + "/status"@, method) == "许可证状态校验"@,
        title_of("/api/licenses/"@ + id + "/activate"@, method) == "许可证激活"@,
        title_of("/api/licenses/"@ + id + "/destroy"@, method) == "许可证销毁"@,
{
    reveal_strlit("/api/licenses/");
    reveal_strlit("/status");
    reveal_strlit("/activate");
    reveal_strlit("/destroy");
    let prefix = "/api/licenses/"@;
    let status = prefix + id + "/status"@;
    let activate = prefix + id + "/activate"@;
    let destroy = prefix + id + "/destroy"@;
    assert(status =~= prefix + (id + "/status"@));
    assert(activate =~= prefix + (id + "/activate"@));
    assert(destroy =~= prefix + (id + "/destroy"@));
    lemma_begins(prefix, id + "/status"@);
    lemma_begins(prefix, id + "/activate"@);
    lemma_begins(prefix, id + "/destroy"@);
    lemma_finishes(prefix + id, "/status"@);
    lemma_finishes(prefix + id, "/activate"@);
    lemma_finishes(prefix + id, "/destroy"@);
    assert("/status"@.last() == 's');
    assert("/activate"@.last() == 'e');
    assert("/destroy"@.last() == 'y');
    lemma_does_not_finish(activate, "/status"@);
    lemma_does_not_finish(destroy, "/status"@);
    lemma_does_not_finish(destroy, "/activate"@);
    lemma_license_path_is_not_whole(status);
    lemma_license_path_is_not_whole(activate);
    lemma_license_path_is_not_whole(destroy);
}

proof fn lemma_license_path_is_not_whole(path: Seq<char>)
    requires
        path.len() >= 20,
        path[0] == '/' && path[5] == 'l' && path[6] == 'i',
    ensures
        path != "/healthz"@,
        path != "/api/session"@,
        path != "/api/platform-tools"@,
        path != "/api/logs"@,
        path != "/api/customers"@,
        path != "/api/orders"@,
        path != "/api/licenses"@,
        path != "/api/finance/summary"@,
        path != "/api/transactions"@,
        path != "/api/ai-employees"@,
        path != "/api/market/ai-employees"@,
        path != "/api/skills"@,
        path != "/api/skills/import"@,
{
    reveal_strlit("/healthz");
    reveal_strlit("/api/session");
    reveal_strlit("/api/platform-tools");
    reveal_strlit("/api/logs");
    reveal_strlit("/api/customers");
    reveal_strlit("/api/orders");
    reveal_strlit("/api/licenses");
    reveal_strlit("/api/finance/summary");
    reveal_strlit("/api/transactions");
    reveal_strlit("/api/ai-employees");
    reveal_strlit("/api/market/ai-employees");
    reveal_strlit("/api/skills");
    reveal_strlit("/api/skills/import");
    assert("/api/finance/summary"@[5] == 'f');
    assert("/api/market/ai-employees"@[5] == 'm');
}

proof fn lemma_order_path_is_not_whole(path: Seq<char>)
    requires
        path.len() >= 12,
        path[5] == 'o' && path[6] == 'r',
    ensures
        path != "/healthz"@,
        path != "/api/session"@,
        path != "/api/platform-tools"@,
        path != "/api/logs"@,
        path != "/api/customers"@,
        path != "/api/orders"@,
        path != "/api/licenses"@,
        path != "/api/finance/summary"@,
        path != "/api/transactions"@,
        path != "/api/ai-employees"@,
        path != "/api/market/ai-employees"@,
        path != "/api/skills"@,
        path != "/api/skills/import"@,
{
    reveal_strlit("/healthz");
    reveal_strlit("/api/session");
    reveal_strlit("/api/platform-tools");
    reveal_strlit("/api/logs");
    reveal_strlit("/api/customers");
    reveal_strlit("/api/orders");
    reveal_strlit("/api/licenses");
    reveal_strlit("/api/finance/summary");
    reveal_strlit("/api/transactions");
    reveal_strlit("/api/ai-employees");
    reveal_strlit("/api/market/ai-employees");
    reveal_strlit("/api/skills");
    reveal_strlit("/api/skills/import");
    assert("/healthz"@.len() == 8);
    assert("/api/session"@[5] == 's');
    assert("/api/platform-tools"@[5] == 'p');
    assert("/api/logs"@[5] == 'l');
    assert("/api/customers"@[5] == 'c');
    assert("/api/orders"@.len() == 11);
    assert("/api/licenses"@[5] == 'l');
    assert("/api/finance/summary"@[5] == 'f');
    assert("/api/transactions"@[5] == 't');
    assert("/api/ai-employees"@[5] == 'a');
    assert("/api/market/ai-employees"@[5] == 'm');
    assert("/api/skills"@[5] == 's');
    assert("/api/skills/import"@[5] == 's');
}

/// A path below the orders, with whatever identifier, has the title of a payment or
/// of a cancellation where it ends in one, and otherwise that of a change.
pub proof fn law_order_paths_have_their_titles(id: Seq<char>, method: Seq<char>)
    ensures
        title_of("/api/orders/"@ + id + "/payment"@, method) == "登记订单回款"@,
        title_of("/api/orders/"@ + id + "/cancel"@, method) == "取消订单"@,
        !text::finishes_with("/api/orders/"@ + id, "/payment"@) && !text::finishes_with(
            "/api/orders/"@ + id,
            "/cancel"@,
        ) ==> title_of("/api/orders/"@ + id, method) == "编辑订单"@,
{
    reveal_strlit("/api/orders/");
    reveal_strlit("/api/licenses/");
    reveal_strlit("/payment");
    reveal_strlit("/cancel");
    let prefix = "/api/orders/"@;
    let payment = prefix + id + "/payment"@;
    let cancel = prefix + id + "/cancel"@;
    let plain = prefix + id;
    assert(payment =~= prefix + (id + "/payment"@));
    assert(cancel =~= prefix + (id + "/cancel"@));
    lemma_begins(prefix, id + "/payment"@);
    lemma_begins(prefix, id + "/cancel"@);
    lemma_begins(prefix, id);
    lemma_finishes(plain, "/payment"@);
    lemma_finishes(plain, "/cancel"@);
    assert("/payment"@.last() == 't');
    assert("/cancel"@.last() == 'l');
    lemma_does_not_finish(cancel, "/payment"@);
    assert(prefix[5] == 'o' && prefix[6] == 'r');
    assert("/api/licenses/"@[5] == 'l');
    lemma_does_not_begin(payment, "/api/licenses/"@, 5);
    lemma_does_not_begin(cancel, "/api/licenses/"@, 5);
    lemma_does_not_begin(plain, "/api/licenses/"@, 5);
    lemma_order_path_is_not_whole(payment);
    lemma_order_path_is_not_whole(cancel);
    lemma_order_path_is_not_whole(plain);
}

/// The lists and what makes a customer, an order or a license are told apart by the
/// method: what reads is the list.
pub proof fn law_list_and_creation_are_told_apart(method: Seq<char>)
    ensures
        method == "GET"@ ==> title_of("/api/customers"@, method) == "客户列表"@ && title_of(
            "/api/orders"@,
            method,
        ) == "订单列表"@ && title_of("/api/licenses"@, method) == "许可证列表"@,
        method != "GET"@ ==> title_of("/api/customers"@, method) == "创建客户"@ && title_of(
            "/api/orders"@,
            method,
        ) == "创建订单"@ && title_of("/api/licenses"@, method) == "签发许可证"@,
{
    reveal_strlit("/healthz");
    reveal_strlit("/api/session");
    reveal_strlit("/api/platform-tools");
    reveal_strlit("/api/logs");
    reveal_strlit("/api/customers");
    reveal_strlit("/api/orders");
    reveal_strlit("/api/licenses");
    assert("/healthz"@.len() == 8);
    assert("/api/session"@.len() == 12);
    assert("/api/platform-tools"@.len() == 19);
    assert("/api/logs"@.len() == 9);
    assert("/api/customers"@.len() == 14);
    assert("/api/orders"@.len() == 11);
    assert("/api/licenses"@.len() == 13);
}

/// A request is not audited exactly where it reads the audit log or comes from the
/// management UI: from the origin that is configured, unless that is blank, or from
/// the port of the UI on this machine. A header says so by how it begins.
pub proof fn law_requests_of_the_ui_are_not_audited(
    origin: Option<Seq<char>>,
    referer: Option<Seq<char>>,
    configured: Option<Seq<char>>,
    path: Seq<char>,
)
    ensures
        is_unaudited(origin, referer, configured, path) <==> {
            ||| path == "/api/logs"@
            ||| origin matches Some(value) && names_ui(value, configured)
            ||| referer matches Some(value) && names_ui(value, configured)
        },
{
}

/// Whether a text begins with an address of the management UI.
pub open spec fn names_ui(value: Seq<char>, configured: Option<Seq<char>>) -> bool {
    ||| text::begins_with(value, "http://127.0.0.1:8778"@)
    ||| text::begins_with(value, "http://localhost:8778"@)
    ||| configured matches Some(origin) && text::trimmed(origin).len() > 0 && text::begins_with(
        value,
        origin,
    )
}

proof fn lemma_path_names_one(kind: Seq<char>, id: Seq<char>)
    requires
        kind.len() > 0,
        id.len() > 0,
        !kind.contains('/'),
        !id.contains('/'),
    ensures
        path_parts("/api/"@ + kind + "/"@ + id) == seq!["api"@, kind, id],
{
    reveal_strlit("/api/");
    reveal_strlit("api");
    reveal_strlit("/");
    let path = "/api/"@ + kind + "/"@ + id;
    let inner = "api"@.push('/') + kind;
    let plain = inner.push('/') + id;
    assert("/"@ =~= seq!['/']);
    assert("api"@ =~= seq!['a', 'p', 'i']);
    assert("/api/"@ =~= seq!['/', 'a', 'p', 'i', '/']);
    assert(path[0] == '/');
    assert(path.skip(1) =~= plain);
    assert(plain[0] == 'a');
    assert(text::stripped_start(plain, '/') == plain);
    assert(text::stripped_start(path, '/') == plain);
    assert(plain.last() == id.last());
    assert(id.contains(id.last()));
    assert(text::stripped_end(plain, '/') == plain);
    text::lemma_split_last(inner, id, '/');
    text::lemma_split_last("api"@, kind, '/');
    assert forall|i: int| 0 <= i < "api"@.len() implies "api"@[i] != '/' by {}
    text::lemma_split_single("api"@, '/');
    assert(text::split_on(plain, '/') =~= seq!["api"@, kind, id]);
}

/// A request whose path names a customer is about that customer, one whose path
/// names an order about the customer of the order, and one whose path names a
/// license about the customer of the license, under the name that was kept with it
/// or else under the identifier.
pub proof fn law_path_tells_the_customer(
    id: Seq<char>,
    customers: Seq<AuditLogCustomerView>,
    orders: Seq<OrderOwnerView>,
    licenses: Seq<LicenseOwnerView>,
)
    requires
        id.len() > 0,
        !id.contains('/'),
    ensures
        customer_for(Some("/api/"@ + "customers"@ + "/"@ + id), customers, orders, licenses)
            == lookup::found::<AuditLogCustomer>(customers, id),
        customer_for(Some("/api/"@ + "orders"@ + "/"@ + id), customers, orders, licenses) == (
        match lookup::found::<OrderOwner>(orders, id) {
            Some(order) => lookup::found::<AuditLogCustomer>(customers, order.customer_id),
            None => None,
        }),
        customer_for(Some("/api/"@ + "licenses"@ + "/"@ + id), customers, orders, licenses) == (
        match lookup::found::<LicenseOwner>(licenses, id) {
            Some(owner) => Some(
                AuditLogCustomerView {
                    customer_id: owner.subject,
                    customer_name: if text::trimmed(owner.customer_name_snapshot).len() > 0 {
                        owner.customer_name_snapshot
                    } else {
                        owner.subject
                    },
                },
            ),
            None => None,
        }),
        customer_for(None, customers, orders, licenses) is None,
{
    reveal_strlit("customers");
    reveal_strlit("orders");
    reveal_strlit("licenses");
    assert("customers"@.len() == 9);
    assert("orders"@.len() == 6);
    assert("licenses"@.len() == 8);
    assert(!"customers"@.contains('/'));
    assert(!"orders"@.contains('/'));
    assert(!"licenses"@.contains('/'));
    lemma_path_names_one("customers"@, id);
    lemma_path_names_one("orders"@, id);
    lemma_path_names_one("licenses"@, id);
}

/// An entry that gets its customer is otherwise what it was, and says so where it
/// has none.
pub proof fn law_attribution_changes_the_customer_only(
    record: AuditLogRecordView,
    customer: Option<AuditLogCustomerView>,
)
    ensures
        ({
            let after = attributed(record, customer);
            &&& customer matches Some(c) ==> after.customer_id == Some(c.customer_id)
                && after.customer_name == c.customer_name
            &&& customer is None ==> after.customer_id is None && after.customer_name == "无客户"@
            &&& after == (AuditLogRecordView {
                customer_id: after.customer_id,
                customer_name: after.customer_name,
                ..record
            })
        }),
{
}

/// Only an entry without a customer is given one afterwards, and it is the one that
/// its path tells.
pub proof fn law_known_customer_is_kept(
    record: AuditLogRecordView,
    customers: Seq<AuditLogCustomerView>,
    orders: Seq<OrderOwnerView>,
    licenses: Seq<LicenseOwnerView>,
)
    ensures
        record.customer_id is Some || record.customer_name.len() > 0 ==> missing_customer(
            record,
            customers,
            orders,
            licenses,
        ) is None,
        record.customer_id is None && record.customer_name.len() == 0 ==> missing_customer(
            record,
            customers,
            orders,
            licenses,
        ) == customer_for(record.path, customers, orders, licenses),
{
}

/// As many entries are listed as are asked for, but at least one and at most a
/// thousand; three hundred where no number is asked for.
pub proof fn law_listed_count_is_as_asked(limit: Option<u32>)
    ensures
        limit is None ==> listed_count(limit) == 300,
        limit matches Some(n) ==> {
            &&& 1 <= n <= 1000 ==> listed_count(limit) == n
            &&& n == 0 ==> listed_count(limit) == 1
            &&& n > 1000 ==> listed_count(limit) == 1000
        },
{
}

/// An entry is listed as it was logged. One with the general title has the title of
/// its endpoint in its place, and one without the name of a customer says so.
pub proof fn law_entry_is_listed_as_logged(record: AuditLogRecordView)
    ensures
        ({
            let after = shown(record);
            &&& record.endpoint_title != "运营接口"@ ==> after.endpoint_title
                == record.endpoint_title
            &&& record.customer_name.len() > 0 ==> after.customer_name == record.customer_name
            &&& record.customer_name.len() == 0 ==> after.customer_name == "无客户"@
            &&& record.endpoint_title == "运营接口"@ ==> (record.path matches Some(path) ==> (
            record.method matches Some(method) ==> (is_method(method) ==> after.endpoint_title
                == title_of(path, method))))
            &&& after == (AuditLogRecordView {
                endpoint_title: after.endpoint_title,
                customer_name: after.customer_name,
                ..record
            })
        }),
{
}

/// The entries are listed with the one that was added last first, each of them one
/// of the log.
pub proof fn law_log_is_listed_newest_first(
    records: Seq<AuditLogRecordView>,
    limit: Option<u32>,
)
    ensures
        forall|i: int, j: int|
            0 <= i < j < listed_logs(records, limit).len() ==> (#[trigger] listed_logs(
                records,
                limit,
            )[i]).id >= (#[trigger] listed_logs(records, limit)[j]).id,
        forall|i: int|
            0 <= i < listed_logs(records, limit).len() ==> exists|k: int|
                0 <= k < records.len() && #[trigger] listed_logs(records, limit)[i] == shown(
                    #[trigger] records[k],
                ),
{
    let sorted = sorting::sorted_by_rank::<AuditLogRecord>(records);
    sorting::lemma_sorted_by_rank::<AuditLogRecord>(records);
    sorting::lemma_same_members(sorted, records);
    let keep = |x: AuditLogRecordView| is_listed(x);
    let kept = sorted.filter(keep);
    lemma_filter_stays_sorted(sorted, keep, kept);
    let logs = listed_logs(records, limit);
    assert forall|i: int, j: int| 0 <= i < j < logs.len() implies (#[trigger] logs[i]).id >= (
    #[trigger] logs[j]).id by {
        assert(kept[i].id >= kept[j].id);
        assert(logs[i] == shown(kept[i]));
        assert(logs[j] == shown(kept[j]));
    }
    assert forall|i: int| 0 <= i < logs.len() implies exists|k: int|
        0 <= k < records.len() && #[trigger] logs[i] == shown(#[trigger] records[k]) by {
        sorting::lemma_left_is_wanted(sorted, keep, i);
        assert(records.contains(kept[i]));
        let k = records.index_of(kept[i]);
        assert(logs[i] == shown(records[k]));
    }
}

proof fn lemma_filter_stays_sorted(
    sorted: Seq<AuditLogRecordView>,
    keep: spec_fn(AuditLogRecordView) -> bool,
    kept: Seq<AuditLogRecordView>,
)
    requires
        kept == sorted.filter(keep),
        forall|i: int, j: int|
            0 <= i < j < sorted.len() ==> AuditLogRecord::rank_le(
                #[trigger] sorted[i],
                #[trigger] sorted[j],
            ),
    ensures
        forall|i: int, j: int|
            0 <= i < j < kept.len() ==> (#[trigger] kept[i]).id >= (#[trigger] kept[j]).id,
    decreases sorted.len(),
{
    reveal(Seq::filter);
    if sorted.len() > 0 {
        let init = sorted.drop_last();
        assert forall|i: int, j: int| 0 <= i < j < init.len() implies AuditLogRecord::rank_le(
            #[trigger] init[i],
            #[trigger] init[j],
        ) by {
            assert(AuditLogRecord::rank_le(sorted[i], sorted[j]));
        }
        let before = init.filter(keep);
        lemma_filter_stays_sorted(init, keep, before);
        assert forall|i: int, j: int| 0 <= i < j < kept.len() implies (#[trigger] kept[i]).id >= (
        #[trigger] kept[j]).id by {
            assert(kept[i] == before[i]);
            if j < before.len() {
                assert(kept[j] == before[j]);
            } else {
                sorting::lemma_left_is_wanted(init, keep, i);
                let k = init.index_of(before[i]);
                assert(sorted[k] == before[i]);
                assert(AuditLogRecord::rank_le(sorted[k], sorted[sorted.len() - 1]));
            }
        }
    }
}

/// Nothing that is recent enough is removed from the log before it holds more
/// entries than are kept, and what is removed then are the ones that were added
/// first.
pub proof fn law_recent_entries_are_kept(logs: Seq<AuditLogRecordView>, plan: PrunePlan)
    ensures
        ({
            let recent = logs.filter(|log: AuditLogRecordView| log.created_at >= plan.cutoff);
            let left = pruned(logs, plan);
            &&& recent.len() <= plan.keep ==> left == recent
            &&& recent.len() > plan.keep ==> left.len() == plan.keep
            &&& forall|i: int|
                0 <= i < left.len() ==> #[trigger] left[i] == recent[recent.len() - left.len() + i]
        }),
{
}

/// No more than 32 kilobytes are kept of an answer.
pub proof fn law_kept_answer_has_at_most_32_kilobytes(s: Seq<char>)
    ensures
        vstd::utf8::encode_utf8(shortened(s)).len() <= 32 * 1024,
        vstd::utf8::encode_utf8(s).len() <= 32 * 1024 ==> shortened(s) == s,
{
    law_kept_answer_is_bounded(s);
}

} // verus!
