//! Resource versions of the form `major.minor.patch`.

use vstd::prelude::*;

use crate::text;

verus! {

/// The version of a template that was never changed.
pub fn default_template_version() -> (r: String)
    ensures
        r@ == "1.0.0"@,
{
    "1.0.0".to_string()
}

/// The version of an application that names none.
pub fn default_application_version() -> (r: String)
    ensures
        r@ == "1.0.0"@,
{
    "1.0.0".to_string()
}

/// Whether `c` is a decimal digit.
pub open spec fn is_digit(c: char) -> bool {
    '0' <= c <= '9'
}

/// The number that a sequence of decimal digits writes.
pub open spec fn number(s: Seq<char>) -> nat
    decreases s.len(),
{
    if s.len() == 0 {
        0
    } else {
        (10 * number(s.drop_last()) + (s.last() as u32 - '0' as u32)) as nat
    }
}

/// Whether `s` is made of decimal digits, of at least one.
pub open spec fn all_digits(s: Seq<char>) -> bool {
    s.len() > 0 && forall|i: int| 0 <= i < s.len() ==> is_digit(#[trigger] s[i])
}

/// The number that a text writes in decimal, with or without a plus sign, if
/// it writes one that fits in 64 bits.
pub open spec fn parsed(s: Seq<char>) -> Option<u64> {
    let digits = if s.len() > 0 && s[0] == '+' {
        s.skip(1)
    } else {
        s
    };
    if all_digits(digits) && number(digits) <= u64::MAX {
        Some(number(digits) as u64)
    } else {
        None
    }
}

/// The decimal digits of a number.
pub open spec fn decimal(n: nat) -> Seq<char>
    decreases n,
{
    if n < 10 {
        seq![digit_char(n)]
    } else {
        decimal(n / 10).push(digit_char(n % 10))
    }
}

/// The digit of a number below ten.
pub open spec fn digit_char(n: nat) -> char {
    ('0' as u32 + n) as char
}

proof fn lemma_number_grows(s: Seq<char>, t: Seq<char>)
    requires
        forall|i: int| 0 <= i < s.len() ==> is_digit(#[trigger] s[i]),
        t.len() <= s.len(),
        t == s.take(t.len() as int),
    ensures
        number(t) <= number(s),
    decreases s.len(),
{
    if t.len() < s.len() {
        assert(is_digit(s[s.len() - 1]));
        assert(t =~= s.drop_last().take(t.len() as int));
        lemma_number_grows(s.drop_last(), t);
    } else {
        assert(t =~= s);
    }
}

/// What a number writes in decimal reads back as the number.
pub proof fn lemma_decimal_reads_back(n: nat)
    ensures
        all_digits(decimal(n)),
        number(decimal(n)) == n,
        n <= u64::MAX ==> parsed(decimal(n)) == Some(n as u64),
    decreases n,
{
    let s = decimal(n);
    if n < 10 {
        assert(s.drop_last() =~= Seq::<char>::empty());
        assert(number(s.drop_last()) == 0);
        assert(s.last() == digit_char(n));
    } else {
        lemma_decimal_reads_back(n / 10);
        assert(s.drop_last() =~= decimal(n / 10));
        assert(s.last() == digit_char(n % 10));
    }
    assert(s.last() as u32 == '0' as u32 + n % 10);
    assert(is_digit(s[0]));
}

/// Reads a number in decimal, with or without a plus sign.
fn parse(value: &str) -> (r: Option<u64>)
    ensures
        r == parsed(value@),
{
    let chars = text::chars_of(value);
    let start: usize = if chars.len() > 0 && chars[0] == '+' {
        1
    } else {
        0
    };
    let ghost digits = value@.skip(start as int);
    assert(start == 0 ==> digits =~= value@);
    if chars.len() == start {
        return None;
    }
    let mut i: usize = start;
    let mut sum: u64 = 0;
    while i < chars.len()
        invariant
            start <= i <= chars@.len(),
            start <= 1,
            chars@ == value@,
            digits == value@.skip(start as int),
            parsed(value@) == (if all_digits(digits) && number(digits) <= u64::MAX {
                Some(number(digits) as u64)
            } else {
                None
            }),
            forall|k: int| 0 <= k < i - start ==> is_digit(#[trigger] digits[k]),
            sum == number(digits.take(i - start)),
        decreases chars@.len() - i,
    {
        let c = chars[i];
        assert(c == digits[i - start]);
        if !('0' <= c && c <= '9') {
            return None;
        }
        let digit: u64 = (c as u32 - '0' as u32) as u64;
        proof {
            let k = i - start;
            assert(digits.take(k + 1).drop_last() =~= digits.take(k));
            assert(digits.take(k + 1).last() == c);
            assert(number(digits.take(k + 1)) == 10 * sum + digit);
            if all_digits(digits) {
                lemma_number_grows(digits, digits.take(k + 1));
            }
        }
        if sum > (u64::MAX - digit) / 10 {
            return None;
        }
        sum = sum * 10 + digit;
        i = i + 1;
    }
    assert(digits.take(chars@.len() - start) =~= digits);
    Some(sum)
}

/// Writes a number in decimal.
pub fn decimal_text(n: u64) -> (r: String)
    ensures
        r@ == decimal(n as nat),
    decreases n,
{
    let digit = ('0' as u8 + (n % 10) as u8) as char;
    if n < 10 {
        let mut out = String::new();
        out.push(digit);
        assert(out@ =~= decimal(n as nat));
        out
    } else {
        let mut out = decimal_text(n / 10);
        out.push(digit);
        out
    }
}

/// The text after its leading `v`s.
pub open spec fn without_v(s: Seq<char>) -> Seq<char>
    decreases s.len(),
{
    if s.len() > 0 && s[0] == 'v' {
        without_v(s.skip(1))
    } else {
        s
    }
}

/// The component at a place of a split version, or what stands in for it.
pub open spec fn component(parts: Seq<Seq<char>>, i: int, missing: u64) -> u64 {
    if i < parts.len() {
        match parsed(parts[i]) {
            Some(n) => n,
            None => missing,
        }
    } else {
        missing
    }
}

/// Major, minor and patch of a version: white space and leading `v`s do not
/// count, a major that cannot be read is 1, a minor or patch is 0.
pub open spec fn parts_of(version: Seq<char>) -> (u64, u64, u64) {
    let parts = text::split_on(without_v(text::trimmed(version)), '.');
    (component(parts, 0, 1), component(parts, 1, 0), component(parts, 2, 0))
}

/// The text of a version.
pub open spec fn version_text(major: nat, minor: nat, patch: nat) -> Seq<char> {
    decimal(major) + "."@ + decimal(minor) + "."@ + decimal(patch)
}

/// Writes a version.
fn format_version(major: u64, minor: u64, patch: u64) -> (r: String)
    ensures
        r@ == version_text(major as nat, minor as nat, patch as nat),
{
    let head = text::join3(decimal_text(major).as_str(), ".", decimal_text(minor).as_str());
    text::join3(head.as_str(), ".", decimal_text(patch).as_str())
}

/// Takes the leading `v`s off a text.
fn strip_v(value: &str) -> (r: String)
    ensures
        r@ == without_v(value@),
{
    let chars = text::chars_of(value);
    let mut i: usize = 0;
    assert(value@.skip(0) =~= value@);
    while i < chars.len() && chars[i] == 'v'
        invariant
            i <= chars@.len(),
            chars@ == value@,
            without_v(value@) == without_v(value@.skip(i as int)),
        decreases chars@.len() - i,
    {
        assert(value@.skip(i as int).skip(1) =~= value@.skip(i + 1));
        i = i + 1;
    }
    let rest = text::text_of(&chars, i, chars.len());
    assert(rest@ =~= value@.skip(i as int));
    rest
}

/// Reads a component of a split version.
fn read_component(parts: &Vec<String>, i: usize, missing: u64) -> (r: u64)
    ensures
        r == component(text::views(parts@), i as int, missing),
{
    if i < parts.len() {
        match parse(parts[i].as_str()) {
            Some(n) => n,
            None => missing,
        }
    } else {
        missing
    }
}

/// Major, minor and patch of a version.
pub fn version_parts(version: &str) -> (r: (u64, u64, u64))
    ensures
        r == parts_of(version@),
{
    let plain = strip_v(text::trim_owned(version).as_str());
    let parts = text::split(plain.as_str(), '.');
    (
        read_component(&parts, 0, 1),
        read_component(&parts, 1, 0),
        read_component(&parts, 2, 0),
    )
}

/// The parts of the version that follows: the patch grows by one; a patch or
/// minor that reaches ten starts again at 0 and carries.
pub open spec fn next_parts(parts: (u64, u64, u64)) -> (int, int, int) {
    let (major, minor, patch) = parts;
    let carried = if patch + 1 >= 10 {
        minor + 1
    } else {
        minor as int
    };
    (
        if carried >= 10 {
            major + 1
        } else {
            major as int
        },
        if carried >= 10 {
            0
        } else {
            carried
        },
        if patch + 1 >= 10 {
            0
        } else {
            patch + 1
        },
    )
}

/// Whether each number that is counted up on the way to the next version fits
/// in 64 bits.
pub open spec fn can_advance(version: Seq<char>) -> bool {
    let (major, minor, patch) = parts_of(version);
    &&& patch < u64::MAX
    &&& patch + 1 >= 10 ==> minor < u64::MAX
    &&& next_parts(parts_of(version)).0 <= u64::MAX
}

/// The text of the version that follows `version`.
pub open spec fn next_version(version: Seq<char>) -> Seq<char> {
    let (major, minor, patch) = next_parts(parts_of(version));
    version_text(major as nat, minor as nat, patch as nat)
}

/// The version that follows a version.
pub fn next_patch_version(version: &str) -> (r: String)
    requires
        can_advance(version@),
    ensures
        r@ == next_version(version@),
{
    let parts = version_parts(version);
    let mut major: u64 = parts.0;
    let mut minor: u64 = parts.1;
    let mut patch: u64 = parts.2;
    patch = patch + 1;
    if patch >= 10 {
        patch = 0;
        minor = minor + 1;
    }
    if minor >= 10 {
        minor = 0;
        major = major + 1;
    }
    format_version(major, minor, patch)
}

/// Whether the next version of a version can be counted.
pub fn can_advance_version(version: &str) -> (r: bool)
    ensures
        r == can_advance(version@),
{
    let (major, minor, patch) = version_parts(version);
    if patch == u64::MAX {
        return false;
    }
    if patch + 1 >= 10 {
        if minor == u64::MAX {
            return false;
        }
        minor + 1 < 10 || major < u64::MAX
    } else {
        minor < 10 || major < u64::MAX
    }
}

/// The sums of the major, minor and patch numbers of some versions.
pub open spec fn summed(versions: Seq<Seq<char>>) -> (nat, nat, nat)
    decreases versions.len(),
{
    if versions.len() == 0 {
        (0, 0, 0)
    } else {
        let (major, minor, patch) = summed(versions.drop_last());
        let last = parts_of(versions.last());
        (major + last.0 as nat, minor + last.1 as nat, patch + last.2 as nat)
    }
}

/// Whether the sums of some versions fit in 64 bits.
pub open spec fn sums_fit(versions: Seq<Seq<char>>) -> bool {
    let (major, minor, patch) = summed(versions);
    major <= u64::MAX && minor <= u64::MAX && patch <= u64::MAX
}

/// The version of a package of parts with the given versions.
pub open spec fn package_version(versions: Seq<Seq<char>>) -> Seq<char> {
    let (major, minor, patch) = summed(versions);
    version_text(major, minor, patch)
}

proof fn lemma_sums_grow(versions: Seq<Seq<char>>, n: int)
    requires
        0 <= n <= versions.len(),
    ensures
        summed(versions.take(n)).0 <= summed(versions).0,
        summed(versions.take(n)).1 <= summed(versions).1,
        summed(versions.take(n)).2 <= summed(versions).2,
    decreases versions.len(),
{
    if n < versions.len() {
        assert(versions.drop_last().take(n) =~= versions.take(n));
        lemma_sums_grow(versions.drop_last(), n);
    } else {
        assert(versions.take(n) =~= versions);
    }
}

/// The version of a package: each number is the sum of that number over the
/// versions of the parts, without a carry.
pub fn package_version_from_versions(versions: &Vec<String>) -> (r: String)
    requires
        sums_fit(text::views(versions@)),
    ensures
        r@ == package_version(text::views(versions@)),
{
    let ghost all = text::views(versions@);
    let mut major: u64 = 0;
    let mut minor: u64 = 0;
    let mut patch: u64 = 0;
    let mut i: usize = 0;
    assert(all.take(0) =~= Seq::<Seq<char>>::empty());
    while i < versions.len()
        invariant
            i <= versions@.len(),
            all == text::views(versions@),
            sums_fit(all),
            summed(all.take(i as int)) == (major as nat, minor as nat, patch as nat),
        decreases versions@.len() - i,
    {
        let item = version_parts(versions[i].as_str());
        proof {
            assert(all.take(i + 1).drop_last() =~= all.take(i as int));
            assert(all.take(i + 1).last() == versions@[i as int]@);
            lemma_sums_grow(all, i + 1);
        }
        major = major + item.0;
        minor = minor + item.1;
        patch = patch + item.2;
        i = i + 1;
    }
    assert(all.take(versions@.len() as int) =~= all);
    format_version(major, minor, patch)
}

/// Whether the sums of some versions fit in 64 bits.
pub fn sums_fit_versions(versions: &Vec<String>) -> (r: bool)
    ensures
        r == sums_fit(text::views(versions@)),
{
    let ghost all = text::views(versions@);
    let mut major: u64 = 0;
    let mut minor: u64 = 0;
    let mut patch: u64 = 0;
    let mut i: usize = 0;
    assert(all.take(0) =~= Seq::<Seq<char>>::empty());
    while i < versions.len()
        invariant
            i <= versions@.len(),
            all == text::views(versions@),
            summed(all.take(i as int)) == (major as nat, minor as nat, patch as nat),
        decreases versions@.len() - i,
    {
        let item = version_parts(versions[i].as_str());
        proof {
            assert(all.take(i + 1).drop_last() =~= all.take(i as int));
            assert(all.take(i + 1).last() == versions@[i as int]@);
            lemma_sums_grow(all, i + 1);
        }
        if major > u64::MAX - item.0 || minor > u64::MAX - item.1 || patch > u64::MAX - item.2 {
            return false;
        }
        major = major + item.0;
        minor = minor + item.1;
        patch = patch + item.2;
        i = i + 1;
    }
    assert(all.take(versions@.len() as int) =~= all);
    true
}

proof fn lemma_decimal_plain(n: nat)
    ensures
        decimal(n).len() > 0,
        forall|i: int| 0 <= i < decimal(n).len() ==> is_digit(#[trigger] decimal(n)[i]),
        !decimal(n).contains('.'),
{
    lemma_decimal_reads_back(n);
}

/// A written version reads back as the numbers it was made of.
pub proof fn law_version_reads_back(major: u64, minor: u64, patch: u64)
    ensures
        parts_of(version_text(major as nat, minor as nat, patch as nat)) == (major, minor, patch),
{
    let a = decimal(major as nat);
    let b = decimal(minor as nat);
    let c = decimal(patch as nat);
    let s = version_text(major as nat, minor as nat, patch as nat);
    lemma_decimal_plain(major as nat);
    lemma_decimal_plain(minor as nat);
    lemma_decimal_plain(patch as nat);
    lemma_decimal_reads_back(major as nat);
    lemma_decimal_reads_back(minor as nat);
    lemma_decimal_reads_back(patch as nat);
    reveal_strlit(".");
    assert("."@ =~= seq!['.']);
    assert(s =~= (a.push('.') + b).push('.') + c);
    assert(s[0] == a[0]);
    assert(s.last() == c.last());
    assert(is_digit(a[0]));
    assert(is_digit(c[c.len() - 1]));
    text::lemma_trimmed_keeps(s);
    assert(without_v(s) == s);
    text::lemma_split_last(a.push('.') + b, c, '.');
    text::lemma_split_last(a, b, '.');
    text::lemma_split_single(a, '.');
    assert(text::split_on(s, '.') =~= seq![a, b, c]);
}

/// Whether a version is ahead of another: by major, then minor, then patch.
pub open spec fn ahead(a: (u64, u64, u64), b: (u64, u64, u64)) -> bool {
    ||| a.0 > b.0
    ||| a.0 == b.0 && a.1 > b.1
    ||| a.0 == b.0 && a.1 == b.1 && a.2 > b.2
}

/// The next version reads back as the parts counted up.
pub proof fn law_next_version_reads_back(version: Seq<char>)
    requires
        can_advance(version),
    ensures
        ({
            let next = next_parts(parts_of(version));
            parts_of(next_version(version)) == (next.0 as u64, next.1 as u64, next.2 as u64)
        }),
{
    let next = next_parts(parts_of(version));
    law_version_reads_back(next.0 as u64, next.1 as u64, next.2 as u64);
}

/// Each change makes a version that is ahead of the one before it.
pub proof fn law_next_version_is_ahead(version: Seq<char>)
    requires
        can_advance(version),
    ensures
        ahead(parts_of(next_version(version)), parts_of(version)),
{
    law_next_version_reads_back(version);
}

/// A version that was advanced has single digit minor and patch numbers.
pub proof fn law_next_version_has_single_digits(version: Seq<char>)
    requires
        can_advance(version),
    ensures
        parts_of(next_version(version)).1 < 10,
        parts_of(next_version(version)).2 < 10,
{
    law_next_version_reads_back(version);
}

/// A package version reads back as the sums of its parts.
pub proof fn law_package_version_reads_back(versions: Seq<Seq<char>>)
    requires
        sums_fit(versions),
    ensures
        ({
            let sums = summed(versions);
            parts_of(package_version(versions)) == (sums.0 as u64, sums.1 as u64, sums.2 as u64)
        }),
{
    let sums = summed(versions);
    law_version_reads_back(sums.0 as u64, sums.1 as u64, sums.2 as u64);
}

proof fn lemma_sums_move(versions: Seq<Seq<char>>, i: int)
    requires
        0 <= i < versions.len(),
        can_advance(versions[i]),
    ensures
        ({
            let was = parts_of(versions[i]);
            let next = next_parts(was);
            let sums = summed(versions);
            let moved = summed(versions.update(i, next_version(versions[i])));
            &&& moved.0 - sums.0 == next.0 - was.0
            &&& moved.1 - sums.1 == next.1 - was.1
            &&& moved.2 - sums.2 == next.2 - was.2
        }),
    decreases versions.len(),
{
    law_next_version_reads_back(versions[i]);
    let changed = versions.update(i, next_version(versions[i]));
    if i == versions.len() - 1 {
        assert(changed.drop_last() =~= versions.drop_last());
    } else {
        assert(changed.drop_last() =~= versions.drop_last().update(i, next_version(versions[i])));
        lemma_sums_move(versions.drop_last(), i);
    }
}

/// Advancing the version of any one part puts the package version ahead.
pub proof fn law_package_follows_its_parts(versions: Seq<Seq<char>>, i: int)
    requires
        0 <= i < versions.len(),
        can_advance(versions[i]),
        sums_fit(versions),
        sums_fit(versions.update(i, next_version(versions[i]))),
    ensures
        ahead(
            parts_of(package_version(versions.update(i, next_version(versions[i])))),
            parts_of(package_version(versions)),
        ),
{
    lemma_sums_move(versions, i);
    law_package_version_reads_back(versions);
    law_package_version_reads_back(versions.update(i, next_version(versions[i])));
}

/// The next version has the next patch number. After a patch number of nine or
/// more comes the next minor number and the patch number zero, and where the minor
/// number is nine or more too, the next major number and zeros.
pub proof fn law_next_version_counts_and_carries(version: Seq<char>)
    requires
        can_advance(version),
    ensures
        ({
            let (major, minor, patch) = parts_of(version);
            let next = parts_of(next_version(version));
            &&& patch < 9 && minor < 10 ==> next.0 == major && next.1 == minor && next.2 == patch
                + 1
            &&& patch >= 9 && minor < 9 ==> next.0 == major && next.1 == minor + 1 && next.2 == 0
            &&& patch >= 9 && minor >= 9 ==> next.0 == major + 1 && next.1 == 0 && next.2 == 0
            &&& patch < 9 && minor >= 10 ==> next.0 == major + 1 && next.1 == 0 && next.2 == patch
                + 1
        }),
{
    law_next_version_reads_back(version);
}

/// The package version counts every part: with one more part each of its numbers
/// grows by that of the part. A package of one part has its version.
pub proof fn law_package_version_adds_up(versions: Seq<Seq<char>>, version: Seq<char>)
    requires
        sums_fit(versions.push(version)),
    ensures
        ({
            let before = parts_of(package_version(versions));
            let after = parts_of(package_version(versions.push(version)));
            let part = parts_of(version);
            &&& after.0 == before.0 + part.0
            &&& after.1 == before.1 + part.1
            &&& after.2 == before.2 + part.2
        }),
        parts_of(package_version(seq![version])) == parts_of(version),
{
    assert(versions.push(version).drop_last() =~= versions);
    assert(seq![version].drop_last() =~= Seq::<Seq<char>>::empty());
    assert(summed(Seq::<Seq<char>>::empty()) == (0nat, 0nat, 0nat));
    law_package_version_reads_back(versions.push(version));
    law_package_version_reads_back(versions);
    law_package_version_reads_back(seq![version]);
}

/// A version is written as its three numbers in decimal with dots between them.
pub proof fn law_version_is_written_with_dots(version: Seq<char>)
    requires
        can_advance(version),
    ensures
        ({
            let parts = text::split_on(next_version(version), '.');
            let next = parts_of(next_version(version));
            &&& parts.len() == 3
            &&& parts[0] == decimal(next.0 as nat)
            &&& parts[1] == decimal(next.1 as nat)
            &&& parts[2] == decimal(next.2 as nat)
        }),
{
    let next = next_parts(parts_of(version));
    law_next_version_reads_back(version);
    let a = decimal(next.0 as nat);
    let b = decimal(next.1 as nat);
    let c = decimal(next.2 as nat);
    lemma_decimal_plain(next.0 as nat);
    lemma_decimal_plain(next.1 as nat);
    lemma_decimal_plain(next.2 as nat);
    reveal_strlit(".");
    assert("."@ =~= seq!['.']);
    assert(next_version(version) =~= (a.push('.') + b).push('.') + c);
    text::lemma_split_last(a.push('.') + b, c, '.');
    text::lemma_split_last(a, b, '.');
    text::lemma_split_single(a, '.');
    assert(text::split_on(next_version(version), '.') =~= seq![a, b, c]);
}

/// A version that lacks its patch number, or its minor number too, counts as one with
/// zeros there.
pub proof fn law_missing_numbers_are_zero(major: u64, minor: u64)
    ensures
        parts_of(decimal(major as nat)) == (major, 0u64, 0u64),
        parts_of(decimal(major as nat).push('.') + decimal(minor as nat)) == (major, minor, 0u64),
{
    let a = decimal(major as nat);
    let b = decimal(minor as nat);
    lemma_decimal_plain(major as nat);
    lemma_decimal_plain(minor as nat);
    lemma_decimal_reads_back(major as nat);
    lemma_decimal_reads_back(minor as nat);
    assert(is_digit(a[0]));
    assert(is_digit(a[a.len() - 1]));
    assert(is_digit(b[b.len() - 1]));
    text::lemma_trimmed_keeps(a);
    assert(without_v(a) == a);
    text::lemma_split_single(a, '.');
    let s = a.push('.') + b;
    assert(s[0] == a[0]);
    assert(s.last() == b.last());
    text::lemma_trimmed_keeps(s);
    assert(without_v(s) == s);
    text::lemma_split_last(a, b, '.');
    assert(text::split_on(s, '.') =~= seq![a, b]);
}

/// A `v` in front of a version does not count.
pub proof fn law_leading_v_does_not_count(version: Seq<char>)
    requires
        version.len() > 0,
        !text::is_white_space(version[0]),
        !text::is_white_space(version.last()),
    ensures
        parts_of(seq!['v'] + version) == parts_of(version),
{
    let s = seq!['v'] + version;
    assert(s[0] == 'v');
    assert(s.last() == version.last());
    text::lemma_trimmed_keeps(s);
    text::lemma_trimmed_keeps(version);
    assert(s.skip(1) =~= version);
}

/// Where a version cannot be read its major number counts as one.
pub proof fn law_unreadable_major_is_one(version: Seq<char>)
    requires
        version.len() > 0,
        !version.contains('.'),
        !text::is_white_space(version[0]),
        !text::is_white_space(version.last()),
        version[0] != 'v',
        version[0] != '+',
        !is_digit(version[0]),
    ensures
        parts_of(version) == (1u64, 0u64, 0u64),
{
    text::lemma_trimmed_keeps(version);
    assert(without_v(version) == version);
    text::lemma_split_single(version, '.');
}

/// A number is written in decimal without leading zeros.
pub proof fn law_decimal_has_no_leading_zeros(n: nat)
    ensures
        n > 0 ==> decimal(n)[0] != '0',
        n < 10 ==> decimal(n).len() == 1,
        n >= 10 ==> decimal(n).len() == decimal(n / 10).len() + 1,
    decreases n,
{
    if n >= 10 {
        law_decimal_has_no_leading_zeros(n / 10);
        lemma_decimal_plain(n / 10);
        assert(decimal(n)[0] == decimal(n / 10)[0]);
    }
}

} // verus!
