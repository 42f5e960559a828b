//! Skill packages: unpacking an uploaded archive, and packing a package into
//! one.

use vstd::prelude::*;

use crate::catalog;
use crate::catalog::OperationSkill;
use crate::clock;
use crate::ids;
use crate::lookup;
use crate::paths;
use crate::rejection;
use crate::rejection::{refuse, refuse_with, Rejection};
use crate::text;
use crate::versions;
use crate::zip_files;
use crate::zip_files::{ZipHeader, ZipSink};

verus! {

/// How many bytes an archive may have.
pub const MAX_ARCHIVE_BYTES: usize = 10_485_760;

/// How many files an archive may have.
pub const MAX_FILES: usize = 256;

/// How many bytes the files in an archive may have together.
pub const MAX_UNCOMPRESSED_BYTES: u64 = 20_971_520;

/// A character as it stands in the name of a package.
pub open spec fn package_char(c: char) -> char {
    if 'a' <= c <= 'z' || 'A' <= c <= 'Z' || '0' <= c <= '9' || c == '-' || c == '_' {
        text::lower_char(c)
    } else {
        '-'
    }
}

/// A text as the name of a package: lower case letters, digits, hyphens and
/// underscores, without hyphens at either end.
pub open spec fn normalized(s: Seq<char>) -> Seq<char> {
    let plain = text::stripped(s.map_values(|c: char| package_char(c)), '-');
    if plain.len() == 0 {
        "skill"@
    } else {
        plain
    }
}

/// A text as the name of a package.
pub fn normalize_package_name(value: &str) -> (r: String)
    ensures
        r@ == normalized(value@),
{
    let ghost all = value@.map_values(|c: char| package_char(c));
    let chars = text::chars_of(value);
    let mut out = String::new();
    let mut i: usize = 0;
    while i < chars.len()
        invariant
            i <= chars@.len(),
            chars@ == value@,
            all == value@.map_values(|c: char| package_char(c)),
            out@ == all.take(i as int),
        decreases chars@.len() - i,
    {
        let c = chars[i];
        let plain = ('a' <= c && c <= 'z') || ('A' <= c && c <= 'Z') || ('0' <= c && c <= '9') || c
            == '-' || c == '_';
        assert(all.take(i + 1) =~= all.take(i as int).push(package_char(c)));
        if plain {
            out.push(c.to_ascii_lowercase());
        } else {
            out.push('-');
        }
        i = i + 1;
    }
    assert(all.take(all.len() as int) =~= all);
    let name = text::strip(out.as_str(), '-');
    if name.as_str().is_empty() {
        "skill".to_string()
    } else {
        name
    }
}

/// Whether a character may stand in the name of a package.
pub open spec fn is_package_char(c: char) -> bool {
    'a' <= c <= 'z' || '0' <= c <= '9' || c == '-' || c == '_'
}

proof fn lemma_stripped_start(s: Seq<char>, c: char)
    ensures
        exists|k: int|
            0 <= k <= s.len() && text::stripped_start(s, c) == #[trigger] s.skip(k),
        text::stripped_start(s, c).len() > 0 ==> text::stripped_start(s, c)[0] != c,
    decreases s.len(),
{
    if s.len() > 0 && s[0] == c {
        lemma_stripped_start(s.skip(1), c);
        let k = choose|k: int|
            0 <= k <= s.skip(1).len() && text::stripped_start(s.skip(1), c) == #[trigger] s.skip(
                1,
            ).skip(k);
        assert(s.skip(1).skip(k) =~= s.skip(k + 1));
    } else {
        assert(s.skip(0) =~= s);
    }
}

proof fn lemma_stripped_end(s: Seq<char>, c: char)
    ensures
        exists|k: int| 0 <= k <= s.len() && text::stripped_end(s, c) == #[trigger] s.take(k),
        text::stripped_end(s, c).len() > 0 ==> text::stripped_end(s, c).last() != c,
    decreases s.len(),
{
    if s.len() > 0 && s.last() == c {
        lemma_stripped_end(s.drop_last(), c);
        let k = choose|k: int|
            0 <= k <= s.drop_last().len() && text::stripped_end(s.drop_last(), c)
                == #[trigger] s.drop_last().take(k);
        assert(s.drop_last().take(k) =~= s.take(k));
    } else {
        assert(s.take(s.len() as int) =~= s);
    }
}

/// The name of a package is never empty, holds nothing but lower case letters,
/// digits, hyphens and underscores, and neither begins nor ends with a hyphen.
pub proof fn law_package_name_is_plain(s: Seq<char>)
    ensures
        normalized(s).len() > 0,
        forall|i: int| 0 <= i < normalized(s).len() ==> is_package_char(#[trigger] normalized(s)[i]),
        normalized(s)[0] != '-',
        normalized(s).last() != '-',
{
    reveal_strlit("skill");
    let all = s.map_values(|c: char| package_char(c));
    let start = text::stripped_start(all, '-');
    let plain = text::stripped_end(start, '-');
    lemma_stripped_start(all, '-');
    lemma_stripped_end(start, '-');
    let k = choose|k: int| 0 <= k <= all.len() && start == #[trigger] all.skip(k);
    let m = choose|m: int| 0 <= m <= start.len() && plain == #[trigger] start.take(m);
    if plain.len() > 0 {
        assert(plain[0] == start[0]);
        assert forall|i: int| 0 <= i < plain.len() implies is_package_char(
            #[trigger] plain[i],
        ) by {
            assert(plain[i] == all[k + i]);
            assert(all[k + i] == package_char(s[k + i]));
        }
    }
}

/// Making the name of a package out of one changes nothing.
pub proof fn law_package_name_is_stable(s: Seq<char>)
    ensures
        normalized(normalized(s)) == normalized(s),
{
    law_package_name_is_plain(s);
    let name = normalized(s);
    let again = name.map_values(|c: char| package_char(c));
    assert forall|i: int| 0 <= i < name.len() implies #[trigger] again[i] == name[i] by {
        assert(is_package_char(name[i]));
    }
    assert(again =~= name);
}

/// What a name of an uploaded file says: whether it is one of an archive.
pub open spec fn is_zip_name(file_name: Seq<char>) -> bool {
    text::finishes_with(text::lowered(file_name), ".zip"@)
}

/// The name of an uploaded archive without its extension.
pub open spec fn base_name_of(file_name: Seq<char>) -> Seq<char> {
    if text::finishes_with(file_name, ".zip"@) {
        file_name.take(file_name.len() - ".zip"@.len())
    } else if text::finishes_with(file_name, ".ZIP"@) {
        file_name.take(file_name.len() - ".ZIP"@.len())
    } else {
        "skill"@
    }
}

/// The name of an uploaded archive without its extension.
pub fn archive_base_name(file_name: &str) -> (r: String)
    ensures
        r@ == base_name_of(file_name@),
{
    match text::strip_suffix(file_name, ".zip") {
        Some(base) => base,
        None => match text::strip_suffix(file_name, ".ZIP") {
            Some(base) => base,
            None => "skill".to_string(),
        },
    }
}

/// Refuses an uploaded file that is no archive, with a given message.
pub fn check_archive_name(file_name: &str, message: &str) -> (r: Option<Rejection>)
    ensures
        text::opt_view(r) == (if is_zip_name(file_name@) {
            None
        } else {
            Some(rejection::refusal(rejection::BAD_REQUEST, message@))
        }),
{
    let lower = text::to_lower(file_name);
    if text::ends_with(lower.as_str(), ".zip") {
        None
    } else {
        Some(refuse(rejection::BAD_REQUEST, message))
    }
}

/// The name of the package of an imported skill: the name of the archive and
/// the first digits of the UUID of the skill.
pub open spec fn imported_package_name(file_name: Seq<char>, bytes: Seq<u8>) -> Seq<char> {
    normalized(base_name_of(file_name)) + "-"@ + ids::hex(bytes).take(8)
}

/// The name of the package of an imported skill.
pub fn import_package_name(file_name: &str, bytes: &Vec<u8>) -> (r: String)
    requires
        bytes@.len() == 16,
    ensures
        r@ == imported_package_name(file_name@, bytes@),
{
    let base = archive_base_name(file_name);
    let digits = text::chars_of(ids::simple_text(bytes).as_str());
    let short_id = text::text_of(&digits, 0, 8);
    assert(short_id@ =~= ids::hex(bytes@).take(8));
    text::join3(normalize_package_name(base.as_str()).as_str(), "-", short_id.as_str())
}

/// The path of the instructions in a package.
pub open spec fn package_path_of(package_name: Seq<char>) -> Seq<char> {
    text::replaced(
        paths::joined(paths::joined("runtime/skills"@, package_name), "SKILL.md"@),
        '\\',
        '/',
    )
}

/// The path of the instructions in a package.
pub fn package_path(package_name: &str) -> (r: String)
    ensures
        r@ == package_path_of(package_name@),
{
    let dir = paths::join("runtime/skills", package_name);
    let path = paths::join(dir.as_str(), "SKILL.md");
    text::replace(path.as_str(), '\\', '/')
}

/// A skill that was imported from an archive.
pub open spec fn imported_skill(
    file_name: Seq<char>,
    bytes: Seq<u8>,
    instructions: Seq<char>,
    now: i64,
) -> catalog::OperationSkillView {
    catalog::OperationSkillView {
        id: "skill-"@ + ids::hex(bytes),
        title: text::trimmed(base_name_of(file_name)),
        package_name: imported_package_name(file_name, bytes),
        source: "imported"@,
        version: "1.0.0"@,
        package_path: package_path_of(imported_package_name(file_name, bytes)),
        description: Seq::empty(),
        instructions,
        status: "active"@,
        created_at: now,
        updated_at: now,
    }
}

/// The skill that an archive is imported as, given its UUID, its instructions
/// and the time.
pub fn import_skill(file_name: &str, bytes: &Vec<u8>, instructions: String, now: i64) -> (r:
    OperationSkill)
    requires
        bytes@.len() == 16,
    ensures
        r@ == imported_skill(file_name@, bytes@, instructions@, now),
{
    let package_name = import_package_name(file_name, bytes);
    let base = archive_base_name(file_name);
    let description = String::new();
    assert(description@ =~= Seq::<char>::empty());
    OperationSkill {
        id: ids::record_id("skill-", bytes),
        title: text::trim_owned(base.as_str()),
        package_path: package_path(package_name.as_str()),
        package_name,
        source: "imported".to_string(),
        version: "1.0.0".to_string(),
        description,
        instructions,
        status: "active".to_string(),
        created_at: now,
        updated_at: now,
    }
}

/// A step of unpacking an archive. Paths are relative to the directory of the
/// package and given by their components.
pub enum UnpackStep {
    Directory(Vec<String>),
    File(Vec<String>, Vec<u8>),
}

/// What a step of unpacking does.
pub enum UnpackStepView {
    Directory(Seq<Seq<char>>),
    File(Seq<Seq<char>>, Seq<u8>),
}

impl View for UnpackStep {
    type V = UnpackStepView;

    open spec fn view(&self) -> UnpackStepView {
        match self {
            UnpackStep::Directory(path) => UnpackStepView::Directory(text::views(path@)),
            UnpackStep::File(path, bytes) => UnpackStepView::File(text::views(path@), bytes@),
        }
    }
}

/// How an archive is unpacked, and the instructions in it.
pub struct Unpacking {
    pub steps: Vec<UnpackStep>,
    pub instructions: String,
}

/// What an `Unpacking` holds.
#[verifier::ext_equal]
pub struct UnpackingView {
    pub steps: Seq<UnpackStepView>,
    pub instructions: Seq<char>,
}

impl View for Unpacking {
    type V = UnpackingView;

    open spec fn view(&self) -> UnpackingView {
        UnpackingView { steps: text::views(self.steps@), instructions: self.instructions@ }
    }
}

/// What looking through the files of an archive found so far: how many bytes
/// they have together, and the directory of the last `SKILL.md`.
pub struct Scan {
    pub total: u64,
    pub prefix: Option<Vec<String>>,
}

/// What a `Scan` holds.
#[verifier::ext_equal]
pub struct ScanView {
    pub total: int,
    pub prefix: Option<Seq<Seq<char>>>,
}

impl View for Scan {
    type V = ScanView;

    open spec fn view(&self) -> ScanView {
        ScanView {
            total: self.total as int,
            prefix: match self.prefix {
                Some(dir) => Some(text::views(dir@)),
                None => None,
            },
        }
    }
}

/// Whether an archive says of a file that it is a `SKILL.md`.
pub open spec fn is_manifest(header: zip_files::ZipHeaderView) -> bool {
    !header.is_dir && (header.path matches Some(path) && path.len() > 0 && path.last()
        == "SKILL.md"@)
}

/// What looking at one more file finds, or what is wrong with it.
pub open spec fn scan_step(scan: ScanView, header: zip_files::ZipHeaderView) -> Result<
    ScanView,
    Seq<char>,
> {
    match header.path {
        None => Err("Skill 压缩包包含不安全的文件路径"@),
        Some(path) => if scan.total + header.size > MAX_UNCOMPRESSED_BYTES {
            Err("Skill 压缩包解压后不得超过 20 MB"@)
        } else {
            Ok(
                ScanView {
                    total: scan.total + header.size,
                    prefix: if is_manifest(header) {
                        Some(path.drop_last())
                    } else {
                        scan.prefix
                    },
                },
            )
        },
    }
}

/// What looking through some files of an archive finds, or the text of the
/// first error.
pub open spec fn scanned(files: Seq<zip_files::ZipFileView>) -> Result<ScanView, Seq<char>>
    decreases files.len(),
{
    if files.len() == 0 {
        Ok(ScanView { total: 0, prefix: None })
    } else {
        match scanned(files.drop_last()) {
            Err(e) => Err(e),
            Ok(scan) => match files.last().header {
                Err(e) => Err(e),
                Ok(header) => scan_step(scan, header),
            },
        }
    }
}

/// Whether a path lies in a directory.
pub open spec fn lies_in(path: Seq<Seq<char>>, dir: Seq<Seq<char>>) -> bool {
    dir.len() <= path.len() && path.take(dir.len() as int) == dir
}

/// What the path of a file is relative to a directory, where it lies in it and
/// is not the directory itself.
pub open spec fn relative_to(header: zip_files::ZipHeaderView, dir: Seq<Seq<char>>) -> Option<
    Seq<Seq<char>>,
> {
    match header.path {
        Some(path) => if lies_in(path, dir) && path.len() > dir.len() {
            Some(path.skip(dir.len() as int))
        } else {
            None
        },
        None => None,
    }
}

/// Whether the bytes of a file are wanted: it lies in the directory and is no
/// directory itself.
pub open spec fn wants_bytes(header: zip_files::ZipHeaderView, dir: Seq<Seq<char>>) -> bool {
    relative_to(header, dir) is Some && !header.is_dir
}

/// What is unpacked of an archive so far: the steps, and the instructions where
/// they were found.
pub struct Unpacked {
    pub steps: Vec<UnpackStep>,
    pub instructions: Option<String>,
}

/// What an `Unpacked` holds.
#[verifier::ext_equal]
pub struct UnpackedView {
    pub steps: Seq<UnpackStepView>,
    pub instructions: Option<Seq<char>>,
}

impl View for Unpacked {
    type V = UnpackedView;

    open spec fn view(&self) -> UnpackedView {
        UnpackedView {
            steps: text::views(self.steps@),
            instructions: text::opt_view(self.instructions),
        }
    }
}

/// What is unpacked once one more file is, of those in a directory, or what is
/// wrong with it. `bytes` is what reading the file came to.
pub open spec fn unpack_step(
    so_far: UnpackedView,
    header: zip_files::ZipHeaderView,
    bytes: Result<Seq<u8>, Seq<char>>,
    dir: Seq<Seq<char>>,
) -> Result<UnpackedView, Seq<char>> {
    match relative_to(header, dir) {
        None => Ok(so_far),
        Some(relative) => if header.is_dir {
            Ok(
                UnpackedView {
                    steps: so_far.steps.push(UnpackStepView::Directory(relative)),
                    ..so_far
                },
            )
        } else {
            match bytes {
                Err(e) => Err(e),
                Ok(content) => {
                    let steps = so_far.steps.push(UnpackStepView::File(relative, content));
                    if relative != seq!["SKILL.md"@] {
                        Ok(UnpackedView { steps, ..so_far })
                    } else if vstd::utf8::valid_utf8(content) {
                        Ok(
                            UnpackedView {
                                steps,
                                instructions: Some(vstd::utf8::decode_utf8(content)),
                            },
                        )
                    } else {
                        Err("SKILL.md 必须是 UTF-8 文本"@)
                    }
                },
            }
        },
    }
}

/// What is unpacked of some files of an archive, of those in a directory, or
/// the text of the first error.
pub open spec fn unpacked(
    files: Seq<zip_files::ZipFileView>,
    dir: Seq<Seq<char>>,
) -> Result<UnpackedView, Seq<char>>
    decreases files.len(),
{
    if files.len() == 0 {
        Ok(UnpackedView { steps: Seq::empty(), instructions: None })
    } else {
        match unpacked(files.drop_last(), dir) {
            Err(e) => Err(e),
            Ok(so_far) => match files.last().header {
                Err(e) => Err(e),
                Ok(header) => unpack_step(so_far, header, files.last().bytes, dir),
            },
        }
    }
}

/// How the files of an archive are unpacked, or why they cannot be.
pub open spec fn unpacking_of(files: Seq<zip_files::ZipFileView>) -> Result<
    UnpackingView,
    Seq<char>,
> {
    if files.len() > MAX_FILES {
        Err("Skill 压缩包中的文件数量不能超过 256 个"@)
    } else {
        match scanned(files) {
            Err(e) => Err(e),
            Ok(scan) => match scan.prefix {
                None => Err("Skill 压缩包必须包含 SKILL.md"@),
                Some(dir) => match unpacked(files, dir) {
                    Err(e) => Err(e),
                    Ok(all) => match all.instructions {
                        None => Err("Skill 压缩包必须包含 SKILL.md"@),
                        Some(instructions) => Ok(
                            UnpackingView { steps: all.steps, instructions },
                        ),
                    },
                },
            },
        }
    }
}

/// How an uploaded archive is unpacked, or why it is refused.
pub open spec fn extraction_outcome(archive: Seq<u8>) -> Result<
    UnpackingView,
    rejection::RejectionView,
> {
    if archive.len() == 0 || archive.len() > MAX_ARCHIVE_BYTES {
        Err(rejection::refusal(rejection::BAD_REQUEST, "Skill 压缩包不能为空且不得超过 10 MB"@))
    } else {
        match zip_files::zip_opened(archive) {
            Err(e) => Err(
                rejection::refusal(rejection::BAD_REQUEST, "无法读取 Skill ZIP 文件："@ + e),
            ),
            Ok(files) => match unpacking_of(files) {
                Err(e) => Err(rejection::refusal(rejection::BAD_REQUEST, e)),
                Ok(unpacking) => Ok(unpacking),
            },
        }
    }
}

proof fn lemma_scanned_stops(files: Seq<zip_files::ZipFileView>, k: int)
    requires
        0 <= k <= files.len(),
        scanned(files.take(k)) is Err,
    ensures
        scanned(files) == scanned(files.take(k)),
    decreases files.len(),
{
    if k == files.len() {
        assert(files.take(k) =~= files);
    } else {
        assert(files.drop_last().take(k) =~= files.take(k));
        lemma_scanned_stops(files.drop_last(), k);
    }
}

proof fn lemma_unpacked_stops(
    files: Seq<zip_files::ZipFileView>,
    dir: Seq<Seq<char>>,
    k: int,
)
    requires
        0 <= k <= files.len(),
        unpacked(files.take(k), dir) is Err,
    ensures
        unpacked(files, dir) == unpacked(files.take(k), dir),
    decreases files.len(),
{
    if k == files.len() {
        assert(files.take(k) =~= files);
    } else {
        assert(files.drop_last().take(k) =~= files.take(k));
        lemma_unpacked_stops(files.drop_last(), dir, k);
    }
}

proof fn lemma_scanned_headers(files: Seq<zip_files::ZipFileView>)
    requires
        scanned(files) is Ok,
    ensures
        forall|i: int|
            0 <= i < files.len() ==> ((#[trigger] files[i]).header matches Ok(header)
                && header.path is Some),
    decreases files.len(),
{
    if files.len() > 0 {
        let init = files.drop_last();
        lemma_scanned_headers(init);
        assert forall|i: int| 0 <= i < files.len() implies ((#[trigger] files[i]).header matches Ok(
            header,
        ) && header.path is Some) by {
            if i < init.len() {
                assert(init[i] == files[i]);
            }
        }
    }
}

/// The first components of a path.
fn first_components(path: &Vec<String>, count: usize) -> (r: Vec<String>)
    requires
        count <= path@.len(),
    ensures
        text::views(r@) == text::views(path@).take(count as int),
{
    let ghost all = text::views(path@);
    let mut out: Vec<String> = Vec::new();
    let mut i: usize = 0;
    assert(text::views(out@) =~= all.take(0));
    while i < count
        invariant
            i <= count <= path@.len(),
            all == text::views(path@),
            text::views(out@) == all.take(i as int),
        decreases count - i,
    {
        let part = path[i].clone();
        proof {
            text::lemma_views_push(out@, part);
            assert(all.take(i + 1) =~= all.take(i as int).push(all[i as int]));
        }
        out.push(part);
        i = i + 1;
    }
    out
}

/// The components of a path behind the first ones.
fn last_components(path: &Vec<String>, from: usize) -> (r: Vec<String>)
    requires
        from <= path@.len(),
    ensures
        text::views(r@) == text::views(path@).skip(from as int),
{
    let ghost all = text::views(path@).skip(from as int);
    let mut out: Vec<String> = Vec::new();
    let mut i: usize = from;
    assert(text::views(out@) =~= all.take(0));
    while i < path.len()
        invariant
            from <= i <= path@.len(),
            all == text::views(path@).skip(from as int),
            text::views(out@) == all.take(i - from),
        decreases path@.len() - i,
    {
        let part = path[i].clone();
        proof {
            text::lemma_views_push(out@, part);
            assert(all[i - from] == part@);
            assert(all.take(i + 1 - from) =~= all.take(i - from).push(part@));
        }
        out.push(part);
        i = i + 1;
    }
    assert(all.take(all.len() as int) =~= all);
    out
}

/// Whether a path lies in a directory.
fn in_directory(path: &Vec<String>, dir: &Vec<String>) -> (r: bool)
    ensures
        r == lies_in(text::views(path@), text::views(dir@)),
{
    let ghost p = text::views(path@);
    let ghost d = text::views(dir@);
    if dir.len() > path.len() {
        return false;
    }
    let mut i: usize = 0;
    while i < dir.len()
        invariant
            i <= dir@.len() <= path@.len(),
            p == text::views(path@),
            d == text::views(dir@),
            forall|k: int| 0 <= k < i ==> #[trigger] p[k] == d[k],
        decreases dir@.len() - i,
    {
        if !text::same(path[i].as_str(), dir[i].as_str()) {
            assert(p.take(d.len() as int)[i as int] != d[i as int]);
            return false;
        }
        assert(p[i as int] == d[i as int]);
        i = i + 1;
    }
    assert(p.take(d.len() as int) =~= d);
    true
}

/// Looks at one more file of an archive.
pub fn scan_file(scan: Scan, header: ZipHeader) -> (r: Result<Scan, String>)
    ensures
        (match r {
            Ok(more) => Ok(more@),
            Err(e) => Err(e@),
        }) == scan_step(scan@, header@),
{
    let ZipHeader { path: found, size, is_dir } = header;
    let path = match found {
        Some(path) => path,
        None => {
            return Err("Skill 压缩包包含不安全的文件路径".to_string());
        },
    };
    if scan.total > MAX_UNCOMPRESSED_BYTES || size > MAX_UNCOMPRESSED_BYTES - scan.total {
        return Err("Skill 压缩包解压后不得超过 20 MB".to_string());
    }
    let ghost parts = text::views(path@);
    assert(parts.len() == path@.len());
    if !is_dir && path.len() > 0 && text::same(path[path.len() - 1].as_str(), "SKILL.md") {
        assert(parts.last() == path@[path@.len() - 1]@);
        let dir = first_components(&path, path.len() - 1);
        assert(text::views(dir@) =~= parts.drop_last());
        Ok(Scan { total: scan.total + size, prefix: Some(dir) })
    } else {
        assert(path@.len() > 0 ==> parts.last() == path@[path@.len() - 1]@);
        Ok(Scan { total: scan.total + size, prefix: scan.prefix })
    }
}

/// Looks through the files of an archive for the directory of the last
/// `SKILL.md`.
fn scan(archive: &mut zip::ZipArchive<std::io::Cursor<Vec<u8>>>) -> (r: Result<Scan, String>)
    ensures
        zip_files::zip_files(*final(archive)) == zip_files::zip_files(*old(archive)),
        (match r {
            Ok(found) => Ok(found@),
            Err(e) => Err(e@),
        }) == scanned(zip_files::zip_files(*old(archive))),
{
    let ghost files = zip_files::zip_files(*archive);
    let count = zip_files::zip_len(&*archive);
    let mut found = Scan { total: 0, prefix: None };
    let mut i: usize = 0;
    assert(files.take(0) =~= Seq::<zip_files::ZipFileView>::empty());
    while i < count
        invariant
            i <= count,
            count == files.len(),
            zip_files::zip_files(*archive) == files,
            files == zip_files::zip_files(*old(archive)),
            scanned(files.take(i as int)) == Ok::<ScanView, Seq<char>>(found@),
        decreases count - i,
    {
        proof {
            assert(files.take(i + 1).drop_last() =~= files.take(i as int));
            assert(files.take(i + 1).last() == files[i as int]);
        }
        let header = match zip_files::zip_header(archive, i) {
            Ok(header) => header,
            Err(e) => {
                proof {
                    lemma_scanned_stops(files, i + 1);
                }
                return Err(e);
            },
        };
        match scan_file(found, header) {
            Ok(more) => {
                found = more;
            },
            Err(e) => {
                proof {
                    lemma_scanned_stops(files, i + 1);
                }
                return Err(e);
            },
        }
        i = i + 1;
    }
    assert(files.take(files.len() as int) =~= files);
    Ok(found)
}

/// Whether a relative path is that of the instructions.
fn is_instructions(path: &Vec<String>) -> (r: bool)
    ensures
        r == (text::views(path@) == seq!["SKILL.md"@]),
{
    let ghost p = text::views(path@);
    if path.len() == 1 && text::same(path[0].as_str(), "SKILL.md") {
        assert(p =~= seq!["SKILL.md"@]);
        true
    } else {
        assert(p.len() == path@.len());
        assert(p.len() == 1 ==> p[0] == path@[0]@);
        assert(seq!["SKILL.md"@][0] == "SKILL.md"@);
        false
    }
}

/// What the path of a file is relative to a directory, where it lies in it and
/// is not the directory itself.
pub fn relative_path(header: &ZipHeader, dir: &Vec<String>) -> (r: Option<Vec<String>>)
    ensures
        (match r {
            Some(path) => Some(text::views(path@)),
            None => None,
        }) == relative_to(header@, text::views(dir@)),
{
    match &header.path {
        Some(path) => {
            assert(text::views(path@).len() == path@.len());
            assert(text::views(dir@).len() == dir@.len());
            if in_directory(path, dir) && path.len() > dir.len() {
                Some(last_components(path, dir.len()))
            } else {
                None
            }
        },
        None => None,
    }
}

/// Unpacks one more file of an archive, if it lies in a directory. `bytes` is
/// what reading the file came to.
pub fn unpack_file(
    so_far: Unpacked,
    header: &ZipHeader,
    bytes: Result<Vec<u8>, String>,
    dir: &Vec<String>,
) -> (r: Result<Unpacked, String>)
    ensures
        (match r {
            Ok(more) => Ok(more@),
            Err(e) => Err(e@),
        }) == unpack_step(
            so_far@,
            header@,
            match bytes {
                Ok(content) => Ok(content@),
                Err(e) => Err(e@),
            },
            text::views(dir@),
        ),
{
    let relative = match relative_path(header, dir) {
        Some(relative) => relative,
        None => {
            return Ok(so_far);
        },
    };
    let mut steps = so_far.steps;
    let mut instructions = so_far.instructions;
    let step = if header.is_dir {
        UnpackStep::Directory(relative)
    } else {
        let content = match bytes {
            Ok(content) => content,
            Err(e) => {
                return Err(e);
            },
        };
        if is_instructions(&relative) {
            match zip_files::utf8_text(&content) {
                Some(found) => {
                    instructions = Some(found);
                },
                None => {
                    return Err("SKILL.md 必须是 UTF-8 文本".to_string());
                },
            }
        }
        UnpackStep::File(relative, content)
    };
    proof {
        text::lemma_views_push(steps@, step);
    }
    steps.push(step);
    Ok(Unpacked { steps, instructions })
}

/// Unpacks the files of an archive that lie in a directory.
fn unpack(
    archive: &mut zip::ZipArchive<std::io::Cursor<Vec<u8>>>,
    dir: &Vec<String>,
) -> (r: Result<Unpacked, String>)
    ensures
        (match r {
            Ok(all) => Ok(all@),
            Err(e) => Err(e@),
        }) == unpacked(zip_files::zip_files(*old(archive)), text::views(dir@)),
{
    let ghost files = zip_files::zip_files(*archive);
    let ghost root = text::views(dir@);
    let count = zip_files::zip_len(&*archive);
    let mut all = Unpacked { steps: Vec::new(), instructions: None };
    let mut i: usize = 0;
    proof {
        assert(files.take(0) =~= Seq::<zip_files::ZipFileView>::empty());
        assert(text::views(all.steps@) =~= Seq::<UnpackStepView>::empty());
    }
    while i < count
        invariant
            i <= count,
            count == files.len(),
            zip_files::zip_files(*archive) == files,
            files == zip_files::zip_files(*old(archive)),
            root == text::views(dir@),
            unpacked(files.take(i as int), root) == Ok::<UnpackedView, Seq<char>>(all@),
        decreases count - i,
    {
        proof {
            assert(files.take(i + 1).drop_last() =~= files.take(i as int));
            assert(files.take(i + 1).last() == files[i as int]);
        }
        let header = match zip_files::zip_header(archive, i) {
            Ok(header) => header,
            Err(e) => {
                proof {
                    lemma_unpacked_stops(files, root, i + 1);
                }
                return Err(e);
            },
        };
        let bytes: Result<Vec<u8>, String> = if !header.is_dir && relative_path(
            &header,
            dir,
        ).is_some() {
            zip_files::zip_bytes(archive, i)
        } else {
            assert(!wants_bytes(header@, root));
            Ok(Vec::new())
        };
        match unpack_file(all, &header, bytes, dir) {
            Ok(more) => {
                all = more;
            },
            Err(e) => {
                proof {
                    lemma_unpacked_stops(files, root, i + 1);
                }
                return Err(e);
            },
        }
        i = i + 1;
    }
    assert(files.take(files.len() as int) =~= files);
    Ok(all)
}

/// How the files of an archive are unpacked, or why they cannot be.
fn plan_unpacking(archive: &mut zip::ZipArchive<std::io::Cursor<Vec<u8>>>) -> (r: Result<
    Unpacking,
    String,
>)
    ensures
        match r {
            Ok(unpacking) => unpacking_of(zip_files::zip_files(*old(archive))) == Ok::<
                UnpackingView,
                Seq<char>,
            >(unpacking@),
            Err(e) => unpacking_of(zip_files::zip_files(*old(archive))) == Err::<
                UnpackingView,
                Seq<char>,
            >(e@),
        },
{
    if zip_files::zip_len(&*archive) > MAX_FILES {
        return Err("Skill 压缩包中的文件数量不能超过 256 个".to_string());
    }
    let dir = match scan(archive) {
        Ok(found) => match found.prefix {
            Some(dir) => dir,
            None => {
                return Err("Skill 压缩包必须包含 SKILL.md".to_string());
            },
        },
        Err(e) => {
            return Err(e);
        },
    };
    match unpack(archive, &dir) {
        Ok(all) => match all.instructions {
            Some(instructions) => Ok(Unpacking { steps: all.steps, instructions }),
            None => Err("Skill 压缩包必须包含 SKILL.md".to_string()),
        },
        Err(e) => Err(e),
    }
}

/// How an uploaded archive is unpacked, or why it is refused. No step leads above
/// where the archive begins, with the path of the directory of the instructions
/// in front. Without that path in front, a step may lead above the directory of
/// the instructions, unless that is where the archive begins.
pub fn extract_skill_package(archive: Vec<u8>) -> (r: Result<Unpacking, Rejection>)
    ensures
        rejection::outcome(r) == extraction_outcome(archive@),
        r matches Ok(unpacking) ==> (zip_files::zip_opened(archive@) matches Ok(files) && stay_below(
            unpacking@.steps,
            instructions_directory(files),
        )),
{
    if archive.len() == 0 || archive.len() > MAX_ARCHIVE_BYTES {
        return Err(refuse(rejection::BAD_REQUEST, "Skill 压缩包不能为空且不得超过 10 MB"));
    }
    let mut opened = match zip_files::open_zip(archive) {
        Ok(opened) => opened,
        Err(e) => {
            return Err(
                refuse_with(
                    rejection::BAD_REQUEST,
                    text::join2("无法读取 Skill ZIP 文件：", e.as_str()),
                ),
            );
        },
    };
    let ghost files = zip_files::zip_files(opened);
    match plan_unpacking(&mut opened) {
        Ok(unpacking) => {
            proof {
                law_steps_stay_inside(files);
            }
            Ok(unpacking)
        },
        Err(e) => Err(refuse_with(rejection::BAD_REQUEST, e)),
    }
}

/// What importing an archive comes to: the skill and how it is unpacked.
pub open spec fn import_outcome(
    file_name: Seq<char>,
    archive: Seq<u8>,
    bytes: Seq<u8>,
    now: i64,
) -> Result<(catalog::OperationSkillView, UnpackingView), rejection::RejectionView> {
    if !is_zip_name(file_name) {
        Err(rejection::refusal(rejection::BAD_REQUEST, "Skill 导入仅支持 .zip 文件"@))
    } else {
        match extraction_outcome(archive) {
            Err(e) => Err(e),
            Ok(unpacking) => Ok(
                (imported_skill(file_name, bytes, unpacking.instructions, now), unpacking),
            ),
        }
    }
}

/// What a result of an import says.
pub open spec fn import_view(r: Result<(OperationSkill, Unpacking), Rejection>) -> Result<
    (catalog::OperationSkillView, UnpackingView),
    rejection::RejectionView,
> {
    match r {
        Ok((skill, unpacking)) => Ok((skill@, unpacking@)),
        Err(e) => Err(e@),
    }
}

/// Imports an archive as a skill, given its UUID and the time.
pub fn import_skill_at(file_name: &str, archive: Vec<u8>, bytes: &Vec<u8>, now: i64) -> (r: Result<
    (OperationSkill, Unpacking),
    Rejection,
>)
    requires
        bytes@.len() == 16,
    ensures
        import_view(r) == import_outcome(file_name@, archive@, bytes@, now),
{
    match check_archive_name(file_name, "Skill 导入仅支持 .zip 文件") {
        Some(e) => {
            return Err(e);
        },
        None => {},
    }
    match extract_skill_package(archive) {
        Ok(unpacking) => {
            let skill = import_skill(file_name, bytes, unpacking.instructions.clone(), now);
            Ok((skill, unpacking))
        },
        Err(e) => Err(e),
    }
}

/// Imports an archive as a skill, with a new identifier, made now.
pub fn import_operation_skill(file_name: &str, archive: Vec<u8>) -> (r: Result<
    (OperationSkill, Unpacking),
    Rejection,
>)
    ensures
        exists|bytes: Seq<u8>, now: i64|
            ids::is_random_uuid(bytes) && 0 <= now <= clock::LAST_SECOND && import_view(r)
                == #[trigger] import_outcome(file_name@, archive@, bytes, now),
{
    let bytes = ids::random_uuid();
    let now = clock::now();
    import_skill_at(file_name, archive, &bytes, now)
}

/// What replacing the package of a skill comes to: the skill and how the new
/// package is unpacked. Nothing, where the version of the skill is too large to
/// count on.
pub open spec fn update_outcome(
    file_name: Seq<char>,
    archive: Seq<u8>,
    skill_id: Seq<char>,
    skills: Seq<catalog::OperationSkillView>,
    now: i64,
) -> Option<Result<(catalog::OperationSkillView, UnpackingView), rejection::RejectionView>> {
    if !is_zip_name(file_name) {
        Some(Err(rejection::refusal(rejection::BAD_REQUEST, "Skill 更新仅支持 .zip 文件"@)))
    } else {
        match catalog::skill_with(skills, text::trimmed(skill_id)) {
            None => Some(Err(rejection::refusal(rejection::NOT_FOUND, "Skill 不存在"@))),
            Some(skill) => match extraction_outcome(archive) {
                Err(e) => Some(Err(e)),
                Ok(unpacking) => if !versions::can_advance(skill.version) {
                    None
                } else {
                    Some(
                        Ok(
                            (
                                catalog::OperationSkillView {
                                    version: versions::next_version(skill.version),
                                    instructions: unpacking.instructions,
                                    package_path: package_path_of(skill.package_name),
                                    updated_at: now,
                                    ..skill
                                },
                                unpacking,
                            ),
                        ),
                    )
                },
            },
        }
    }
}

/// Replaces the package of a skill by the one in an uploaded archive.
pub fn update_operation_skill_archive(
    file_name: &str,
    archive: Vec<u8>,
    skill_id: &str,
    skills: &Vec<OperationSkill>,
    now: i64,
) -> (r: Option<Result<(OperationSkill, Unpacking), Rejection>>)
    ensures
        (match r {
            Some(x) => Some(import_view(x)),
            None => None,
        }) == update_outcome(file_name@, archive@, skill_id@, text::views(skills@), now),
{
    match check_archive_name(file_name, "Skill 更新仅支持 .zip 文件") {
        Some(e) => {
            return Some(Err(e));
        },
        None => {},
    }
    let id = text::trim_owned(skill_id);
    let existing = match lookup::find(skills, id.as_str()) {
        Some(existing) => existing,
        None => {
            return Some(Err(refuse(rejection::NOT_FOUND, "Skill 不存在")));
        },
    };
    match extract_skill_package(archive) {
        Ok(unpacking) => {
            if !versions::can_advance_version(existing.version.as_str()) {
                return None;
            }
            let path = package_path(existing.package_name.as_str());
            let skill = catalog::replace_skill_package(
                existing,
                unpacking.instructions.clone(),
                path,
                now,
            );
            Some(Ok((skill, unpacking)))
        },
        Err(e) => Some(Err(e)),
    }
}

/// A skill whose package was replaced is ahead of what it was, and keeps its
/// name, its status and the name of its package.
pub proof fn law_replaced_package_is_ahead(
    file_name: Seq<char>,
    archive: Seq<u8>,
    skill_id: Seq<char>,
    skills: Seq<catalog::OperationSkillView>,
    now: i64,
)
    ensures
        update_outcome(file_name, archive, skill_id, skills, now) matches Some(Ok((skill, _)))
            ==> (catalog::skill_with(skills, text::trimmed(skill_id)) matches Some(before) && {
            &&& versions::ahead(
                versions::parts_of(skill.version),
                versions::parts_of(before.version),
            )
            &&& skill.id == before.id
            &&& skill.title == before.title
            &&& skill.status == before.status
            &&& skill.package_name == before.package_name
        }),
{
    match catalog::skill_with(skills, text::trimmed(skill_id)) {
        Some(before) => {
            if versions::can_advance(before.version) {
                versions::law_next_version_is_ahead(before.version);
            }
        },
        None => {},
    }
}

/// Replacing the package of a skill and then refreshing the packages of the AI
/// employees puts the package version of every one that has the skill ahead.
pub proof fn law_packages_follow_a_replaced_skill(
    file_name: Seq<char>,
    archive: Seq<u8>,
    skill_id: Seq<char>,
    products: Seq<catalog::AiEmployeeProductView>,
    skills: Seq<catalog::OperationSkillView>,
    now: i64,
    i: int,
)
    requires
        update_outcome(file_name, archive, skill_id, skills, now) matches Some(Ok((skill, _))) && 0
            <= i < products.len() && catalog::has_skill(products[i], skill.id)
            && catalog::package_counts(products[i], catalog::with_skill(skills, skill)),
        catalog::is_up_to_date(products[i], skills),
        catalog::package_counts(products[i], skills),
    ensures
        update_outcome(file_name, archive, skill_id, skills, now) matches Some(Ok((skill, _))) && {
            let after = catalog::with_skill(skills, skill);
            let done = catalog::refreshed_for_skill(products, skill.id, after, now)[i];
            &&& done == catalog::refreshed(products[i], after, now)
            &&& catalog::is_up_to_date(done, after)
            &&& versions::ahead(
                versions::parts_of(done.package_version),
                versions::parts_of(products[i].package_version),
            )
        },
{
    lookup::lemma_found::<OperationSkill>(skills, text::trimmed(skill_id));
    match update_outcome(file_name, archive, skill_id, skills, now) {
        Some(Ok((skill, _))) => {
            catalog::law_packages_follow_a_skill(products, skills, skill, now, i);
        },
        _ => {},
    }
}

/// An archive that is unpacked is within all limits, and has instructions.
pub proof fn law_unpacked_archive_is_within_limits(files: Seq<zip_files::ZipFileView>)
    ensures
        unpacking_of(files) is Ok ==> files.len() <= MAX_FILES && (scanned(files) matches Ok(found)
            && 0 <= found.total <= MAX_UNCOMPRESSED_BYTES && found.prefix is Some),
{
    lemma_scanned_total(files);
}

proof fn lemma_scanned_total(files: Seq<zip_files::ZipFileView>)
    ensures
        scanned(files) matches Ok(found) ==> 0 <= found.total <= MAX_UNCOMPRESSED_BYTES,
    decreases files.len(),
{
    if files.len() > 0 {
        lemma_scanned_total(files.drop_last());
    }
}

/// An archive with a file that has no path below where the archive begins is
/// refused whole.
pub proof fn law_unsafe_archive_is_refused(files: Seq<zip_files::ZipFileView>, i: int)
    requires
        0 <= i < files.len(),
        files[i].header matches Ok(header) && header.path is None,
    ensures
        unpacking_of(files) is Err,
{
    if scanned(files) is Ok {
        lemma_scanned_headers(files);
        assert(files[i].header->Ok_0.path is Some);
    }
}

/// The path that a step of unpacking is about.
pub open spec fn step_path(step: UnpackStepView) -> Seq<Seq<char>> {
    match step {
        UnpackStepView::Directory(path) => path,
        UnpackStepView::File(path, _) => path,
    }
}

/// Whether a path is a file's path in the archive without that of a directory
/// in front.
pub open spec fn is_part_of(
    files: Seq<zip_files::ZipFileView>,
    dir: Seq<Seq<char>>,
    path: Seq<Seq<char>>,
) -> bool {
    exists|k: int| 0 <= k < files.len() && is_at(#[trigger] files[k], dir, path)
}

/// Whether a path is that of a file without that of a directory in front.
pub open spec fn is_at(
    file: zip_files::ZipFileView,
    dir: Seq<Seq<char>>,
    path: Seq<Seq<char>>,
) -> bool {
    file.header matches Ok(header) && relative_to(header, dir) == Some(path)
}

/// Every step of unpacking is about a file of the archive, at its path below
/// the directory of the instructions.
pub proof fn law_steps_come_from_the_archive(
    files: Seq<zip_files::ZipFileView>,
    dir: Seq<Seq<char>>,
)
    ensures
        unpacked(files, dir) matches Ok(all) ==> forall|i: int|
            0 <= i < all.steps.len() ==> #[trigger] is_part_of(
                files,
                dir,
                step_path(all.steps[i]),
            ),
    decreases files.len(),
{
    if files.len() > 0 {
        let init = files.drop_last();
        law_steps_come_from_the_archive(init, dir);
        match unpacked(files, dir) {
            Ok(all) => {
                let before = unpacked(init, dir)->Ok_0;
                assert forall|i: int| 0 <= i < all.steps.len() implies #[trigger] is_part_of(
                    files,
                    dir,
                    step_path(all.steps[i]),
                ) by {
                    if i < before.steps.len() {
                        assert(is_part_of(init, dir, step_path(before.steps[i])));
                        let k = choose|k: int|
                            0 <= k < init.len() && is_at(
                                #[trigger] init[k],
                                dir,
                                step_path(before.steps[i]),
                            );
                        assert(files[k] == init[k]);
                    } else {
                        assert(is_at(files[files.len() - 1], dir, step_path(all.steps[i])));
                    }
                }
            },
            Err(_) => {},
        }
    }
}

/// The directory of the instructions in an archive that has some.
pub open spec fn instructions_directory(files: Seq<zip_files::ZipFileView>) -> Seq<Seq<char>> {
    scanned(files)->Ok_0.prefix->Some_0
}

/// Whether no step of unpacking leads above where a path begins, with the path of
/// a directory in front of its own.
pub open spec fn stay_below(steps: Seq<UnpackStepView>, dir: Seq<Seq<char>>) -> bool {
    forall|i: int|
        0 <= i < steps.len() ==> zip_files::stays_inside(dir + step_path(#[trigger] steps[i]))
}

/// Where no file of an archive has a path that leads above where it begins, no
/// step of unpacking has one either, with the path of the directory of the
/// instructions in front. Where the instructions stand where the archive begins,
/// no step leads out of the directory that the package is unpacked to.
pub proof fn law_steps_stay_inside(files: Seq<zip_files::ZipFileView>)
    requires
        zip_files::all_stay_inside(files),
    ensures
        unpacking_of(files) matches Ok(unpacking) ==> {
            &&& stay_below(unpacking.steps, instructions_directory(files))
            &&& instructions_directory(files).len() == 0 ==> forall|i: int|
                0 <= i < unpacking.steps.len() ==> zip_files::stays_inside(
                    step_path(#[trigger] unpacking.steps[i]),
                )
        },
{
    match unpacking_of(files) {
        Ok(unpacking) => {
            let dir = instructions_directory(files);
            let steps = unpacking.steps;
            law_steps_come_from_the_archive(files, dir);
            assert forall|i: int| 0 <= i < steps.len() implies zip_files::stays_inside(
                dir + step_path(#[trigger] steps[i]),
            ) by {
                assert(is_part_of(files, dir, step_path(steps[i])));
                let k = choose|k: int|
                    0 <= k < files.len() && is_at(#[trigger] files[k], dir, step_path(steps[i]));
                let path = files[k].header->Ok_0.path->Some_0;
                assert(dir + step_path(steps[i]) =~= path);
            }
            if dir.len() == 0 {
                assert forall|i: int| 0 <= i < steps.len() implies zip_files::stays_inside(
                    step_path(#[trigger] steps[i]),
                ) by {
                    assert(dir + step_path(steps[i]) =~= step_path(steps[i]));
                }
            }
        },
        Err(_) => {},
    }
}

/// Something in the directory of a package. `path` is relative to it.
pub struct PackageEntry {
    pub path: String,
    pub kind: EntryKind,
}

/// What something in a directory is.
pub enum EntryKind {
    Directory,
    File(Vec<u8>),
    Symlink,
    Other,
}

/// What something in a directory is.
pub enum EntryKindView {
    Directory,
    File(Seq<u8>),
    Symlink,
    Other,
}

/// What a `PackageEntry` holds.
#[verifier::ext_equal]
pub struct PackageEntryView {
    pub path: Seq<char>,
    pub kind: EntryKindView,
}

impl View for PackageEntry {
    type V = PackageEntryView;

    open spec fn view(&self) -> PackageEntryView {
        PackageEntryView {
            path: self.path@,
            kind: match self.kind {
                EntryKind::Directory => EntryKindView::Directory,
                EntryKind::File(bytes) => EntryKindView::File(bytes@),
                EntryKind::Symlink => EntryKindView::Symlink,
                EntryKind::Other => EntryKindView::Other,
            },
        }
    }
}

/// A name in an archive, or why it cannot be one: it has more bytes than an
/// archive can hold.
pub open spec fn fitting_name(name: Seq<char>) -> Result<Option<Seq<char>>, Seq<char>> {
    if vstd::utf8::encode_utf8(name).len() > zip_files::MAX_NAME_BYTES {
        Err("Skill 文件路径无效"@)
    } else {
        Ok(Some(name))
    }
}

/// The name that something in a package has in an archive, where it goes into
/// one, or why the package is not packed.
pub open spec fn archive_name(entry: PackageEntryView) -> Result<Option<Seq<char>>, Seq<char>> {
    let name = text::replaced(entry.path, '\\', '/');
    match entry.kind {
        EntryKindView::Symlink => Err("Skill 文件包不能包含符号链接"@),
        EntryKindView::Other => Ok(None),
        EntryKindView::Directory => fitting_name(name.push('/')),
        EntryKindView::File(_) => fitting_name(name),
    }
}

/// A name in an archive, or why it cannot be one.
fn fit_name(name: String) -> (r: Result<Option<String>, String>)
    ensures
        (match r {
            Ok(name) => Ok(text::opt_view(name)),
            Err(e) => Err(e@),
        }) == fitting_name(name@),
{
    if name.as_str().as_bytes().len() > zip_files::MAX_NAME_BYTES {
        Err("Skill 文件路径无效".to_string())
    } else {
        Ok(Some(name))
    }
}

/// The name that something in a package has in an archive, where it goes into
/// one, or why the package is not packed.
pub fn name_in_archive(entry: &PackageEntry) -> (r: Result<Option<String>, String>)
    ensures
        (match r {
            Ok(name) => Ok(text::opt_view(name)),
            Err(e) => Err(e@),
        }) == archive_name(entry@),
{
    let mut name = text::replace(entry.path.as_str(), '\\', '/');
    match &entry.kind {
        EntryKind::Symlink => Err("Skill 文件包不能包含符号链接".to_string()),
        EntryKind::Other => Ok(None),
        EntryKind::Directory => {
            name.push('/');
            fit_name(name)
        },
        EntryKind::File(_) => fit_name(name),
    }
}

/// What is written to an archive of a package, or the text of the first error.
pub open spec fn packed(entries: Seq<PackageEntryView>) -> Result<
    Seq<zip_files::ZipItemView>,
    Seq<char>,
>
    decreases entries.len(),
{
    if entries.len() == 0 {
        Ok(Seq::empty())
    } else {
        match packed(entries.drop_last()) {
            Err(e) => Err(e),
            Ok(written) => match archive_name(entries.last()) {
                Err(e) => Err(e),
                Ok(None) => Ok(written),
                Ok(Some(name)) => match entries.last().kind {
                    EntryKindView::File(bytes) => match zip_files::zip_file_error(
                        written,
                        name,
                        bytes,
                    ) {
                        Some(e) => Err("无法写入 Skill 文件包："@ + e),
                        None => Ok(
                            written.push(zip_files::ZipItemView { name, bytes: Some(bytes) }),
                        ),
                    },
                    _ => match zip_files::zip_directory_error(written, name) {
                        Some(e) => Err("无法写入 Skill 文件包："@ + e),
                        None => Ok(written.push(zip_files::ZipItemView { name, bytes: None })),
                    },
                },
            },
        }
    }
}

proof fn lemma_packed_stops(entries: Seq<PackageEntryView>, k: int)
    requires
        0 <= k <= entries.len(),
        packed(entries.take(k)) is Err,
    ensures
        packed(entries) == packed(entries.take(k)),
    decreases entries.len(),
{
    if k == entries.len() {
        assert(entries.take(k) =~= entries);
    } else {
        assert(entries.drop_last().take(k) =~= entries.take(k));
        lemma_packed_stops(entries.drop_last(), k);
    }
}

/// The archive of a package, or the text of the first error.
pub open spec fn archive_of(entries: Seq<PackageEntryView>) -> Result<Seq<u8>, Seq<char>> {
    match packed(entries) {
        Err(e) => Err(e),
        Ok(written) => match zip_files::zip_finished(written) {
            Err(e) => Err("无法打包 Skill 文件："@ + e),
            Ok(bytes) => Ok(bytes),
        },
    }
}

/// Writes the entries of a package to an archive.
fn archive_skill_directory(entries: &Vec<PackageEntry>) -> (r: Result<ZipSink, String>)
    ensures
        match r {
            Ok(sink) => packed(text::views(entries@)) == Ok::<
                Seq<zip_files::ZipItemView>,
                Seq<char>,
            >(zip_files::zip_written(sink)),
            Err(e) => packed(text::views(entries@)) == Err::<
                Seq<zip_files::ZipItemView>,
                Seq<char>,
            >(e@),
        },
{
    let ghost all = text::views(entries@);
    let mut sink = zip_files::new_zip();
    let mut i: usize = 0;
    assert(all.take(0) =~= Seq::<PackageEntryView>::empty());
    while i < entries.len()
        invariant
            i <= entries@.len(),
            all == text::views(entries@),
            packed(all.take(i as int)) == Ok::<Seq<zip_files::ZipItemView>, Seq<char>>(
                zip_files::zip_written(sink),
            ),
        decreases entries@.len() - i,
    {
        let entry = &entries[i];
        proof {
            assert(all.take(i + 1).drop_last() =~= all.take(i as int));
            assert(all.take(i + 1).last() == entry@);
        }
        let name = match name_in_archive(entry) {
            Ok(name) => name,
            Err(e) => {
                proof {
                    lemma_packed_stops(all, i + 1);
                }
                return Err(e);
            },
        };
        let written: Result<ZipSink, String> = match name {
            Some(name) => match &entry.kind {
                EntryKind::File(bytes) => zip_files::add_zip_file(sink, name.as_str(), bytes),
                _ => zip_files::add_zip_directory(sink, name.as_str()),
            },
            None => Ok(sink),
        };
        match written {
            Ok(more) => {
                sink = more;
            },
            Err(e) => {
                proof {
                    lemma_packed_stops(all, i + 1);
                }
                return Err(text::join2("无法写入 Skill 文件包：", e.as_str()));
            },
        }
        i = i + 1;
    }
    assert(all.take(all.len() as int) =~= all);
    Ok(sink)
}

/// Refuses to pack a package whose name is not a single component.
pub fn check_package_name(package_name: &str) -> (r: Option<Rejection>)
    ensures
        text::opt_view(r) == (if paths::is_single_component(package_name@) {
            None
        } else {
            Some(rejection::refusal(rejection::BAD_REQUEST, "Skill 包名无效"@))
        }),
{
    if paths::single_component(package_name) {
        None
    } else {
        Some(refuse(rejection::BAD_REQUEST, "Skill 包名无效"))
    }
}

/// What a request to pack a package comes to. `entries` is what is in its
/// directory, where that has a `SKILL.md`.
pub open spec fn archive_outcome(
    package_name: Seq<char>,
    entries: Option<Seq<PackageEntryView>>,
) -> Result<Seq<u8>, rejection::RejectionView> {
    if !paths::is_single_component(package_name) {
        Err(rejection::refusal(rejection::BAD_REQUEST, "Skill 包名无效"@))
    } else {
        match entries {
            None => Err(rejection::refusal(rejection::BAD_REQUEST, "Skill 文件包不存在"@)),
            Some(list) => match archive_of(list) {
                Err(e) => Err(rejection::refusal(rejection::BAD_REQUEST, e)),
                Ok(bytes) => Ok(bytes),
            },
        }
    }
}

/// Packs the package of a skill into an archive. `entries` is what is in its
/// directory, where that has a `SKILL.md`.
pub fn archive_operation_skill_package(
    skill: &OperationSkill,
    entries: &Option<Vec<PackageEntry>>,
) -> (r: Result<Vec<u8>, Rejection>)
    ensures
        match r {
            Ok(bytes) => archive_outcome(
                skill@.package_name,
                match *entries {
                    Some(list) => Some(text::views(list@)),
                    None => None,
                },
            ) == Ok::<Seq<u8>, rejection::RejectionView>(bytes@),
            Err(e) => archive_outcome(
                skill@.package_name,
                match *entries {
                    Some(list) => Some(text::views(list@)),
                    None => None,
                },
            ) == Err::<Seq<u8>, rejection::RejectionView>(e@),
        },
{
    match check_package_name(skill.package_name.as_str()) {
        Some(e) => {
            return Err(e);
        },
        None => {},
    }
    let list = match entries {
        Some(list) => list,
        None => {
            return Err(refuse(rejection::BAD_REQUEST, "Skill 文件包不存在"));
        },
    };
    let sink = match archive_skill_directory(list) {
        Ok(sink) => sink,
        Err(e) => {
            return Err(refuse_with(rejection::BAD_REQUEST, e));
        },
    };
    match zip_files::finish_zip(sink) {
        Ok(bytes) => Ok(bytes),
        Err(e) => Err(
            refuse_with(
                rejection::BAD_REQUEST,
                text::join2("无法打包 Skill 文件：", e.as_str()),
            ),
        ),
    }
}

/// A package with a symbolic link in it is not packed.
pub proof fn law_package_with_link_is_refused(entries: Seq<PackageEntryView>, i: int)
    requires
        0 <= i < entries.len(),
        entries[i].kind is Symlink,
    ensures
        archive_of(entries) is Err,
    decreases entries.len(),
{
    if i < entries.len() - 1 {
        assert(entries.drop_last()[i] == entries[i]);
        law_package_with_link_is_refused(entries.drop_last(), i);
        lemma_packed_err(entries.drop_last(), i);
    }
}

proof fn lemma_packed_err(entries: Seq<PackageEntryView>, i: int)
    requires
        0 <= i < entries.len(),
        entries[i].kind is Symlink,
    ensures
        packed(entries) is Err,
    decreases entries.len(),
{
    if i < entries.len() - 1 {
        assert(entries.drop_last()[i] == entries[i]);
        lemma_packed_err(entries.drop_last(), i);
    }
}

/// How large the files of an archive are together, by what it says of them.
pub open spec fn total_size(files: Seq<zip_files::ZipFileView>) -> int
    decreases files.len(),
{
    if files.len() == 0 {
        0
    } else {
        total_size(files.drop_last()) + (match files.last().header {
            Ok(header) => header.size as int,
            Err(_) => 0,
        })
    }
}

/// Whether a file of an archive is one with instructions: a `SKILL.md` that is no
/// directory.
pub open spec fn is_skill_file(file: zip_files::ZipFileView) -> bool {
    file.header matches Ok(header) && !header.is_dir && (header.path matches Some(path)
        && path.len() > 0 && path.last() == "SKILL.md"@)
}

proof fn lemma_scan_finds(files: Seq<zip_files::ZipFileView>)
    ensures
        scanned(files) matches Ok(scan) ==> {
            &&& scan.total == total_size(files)
            &&& scan.prefix is None ==> forall|i: int|
                0 <= i < files.len() ==> !is_skill_file(#[trigger] files[i])
            &&& scan.prefix matches Some(dir) ==> is_last_skill_directory(files, dir)
        },
    decreases files.len(),
{
    if files.len() > 0 {
        let init = files.drop_last();
        let last = files.last();
        lemma_scan_finds(init);
        assert(files[files.len() - 1] == last);
        match scanned(files) {
            Ok(scan) => {
                let before = scanned(init)->Ok_0;
                let header = last.header->Ok_0;
                if is_manifest(header) {
                    assert(is_skill_file(files[files.len() - 1]));
                } else {
                    match before.prefix {
                        Some(dir) => {
                            let k = choose|k: int|
                                {
                                    &&& 0 <= k < init.len()
                                    &&& is_skill_file(#[trigger] init[k])
                                    &&& init[k].header->Ok_0.path->Some_0.drop_last() == dir
                                    &&& forall|j: int|
                                        k < j < init.len() ==> !is_skill_file(#[trigger] init[j])
                                };
                            assert(files[k] == init[k]);
                            assert forall|j: int| k < j < files.len() implies !is_skill_file(
                                #[trigger] files[j],
                            ) by {
                                if j < init.len() {
                                    assert(files[j] == init[j]);
                                }
                            }
                        },
                        None => {
                            assert forall|i: int| 0 <= i < files.len() implies !is_skill_file(
                                #[trigger] files[i],
                            ) by {
                                if i < init.len() {
                                    assert(files[i] == init[i]);
                                }
                            }
                        },
                    }
                }
            },
            Err(_) => {},
        }
    }
}

/// Whether a directory is that of the last file with instructions in an archive.
pub open spec fn is_last_skill_directory(
    files: Seq<zip_files::ZipFileView>,
    dir: Seq<Seq<char>>,
) -> bool {
    exists|k: int|
        {
            &&& 0 <= k < files.len()
            &&& is_skill_file(#[trigger] files[k])
            &&& files[k].header->Ok_0.path->Some_0.drop_last() == dir
            &&& forall|j: int| k < j < files.len() ==> !is_skill_file(#[trigger] files[j])
        }
}

/// An archive that is unpacked has at most 256 files of at most 20 megabytes
/// together, and what is unpacked is the directory of the last `SKILL.md` in it. One
/// without a `SKILL.md` is not unpacked.
pub proof fn law_unpacked_archive_is_small_and_has_instructions(
    files: Seq<zip_files::ZipFileView>,
)
    ensures
        unpacking_of(files) is Ok ==> {
            &&& files.len() <= 256
            &&& total_size(files) <= 20 * 1024 * 1024
            &&& is_last_skill_directory(files, instructions_directory(files))
        },
        (forall|i: int| 0 <= i < files.len() ==> !is_skill_file(#[trigger] files[i]))
            ==> unpacking_of(files) is Err,
{
    lemma_scan_finds(files);
    lemma_scanned_total(files);
}

/// An archive is unpacked only where it has between one byte and ten megabytes.
pub proof fn law_unpacked_archive_is_not_too_large(archive: Seq<u8>)
    ensures
        extraction_outcome(archive) is Ok ==> 1 <= archive.len() <= 10 * 1024 * 1024,
{
}

/// Whether a step unpacks a file of an archive: to its path below a directory, with
/// its bytes, or as a directory where it is one.
pub open spec fn unpacks(
    step: UnpackStepView,
    file: zip_files::ZipFileView,
    dir: Seq<Seq<char>>,
) -> bool {
    &&& file.header matches Ok(header) && (header.path matches Some(path) && {
        &&& dir.len() < path.len()
        &&& path.take(dir.len() as int) == dir
        &&& match step {
            UnpackStepView::Directory(to) => header.is_dir && to == path.skip(dir.len() as int),
            UnpackStepView::File(to, bytes) => !header.is_dir && to == path.skip(dir.len() as int)
                && file.bytes == Ok::<Seq<u8>, Seq<char>>(bytes),
        }
    })
}

/// Whether a file of an archive lies below a directory.
pub open spec fn lies_below(file: zip_files::ZipFileView, dir: Seq<Seq<char>>) -> bool {
    file.header matches Ok(header) && (header.path matches Some(path) && dir.len() < path.len()
        && path.take(dir.len() as int) == dir)
}

/// Whether a step unpacks one of some files.
pub open spec fn unpacks_one(
    step: UnpackStepView,
    files: Seq<zip_files::ZipFileView>,
    dir: Seq<Seq<char>>,
) -> bool {
    exists|k: int| 0 <= k < files.len() && unpacks(step, #[trigger] files[k], dir)
}

/// Whether one of some steps unpacks a file.
pub open spec fn is_unpacked(
    file: zip_files::ZipFileView,
    steps: Seq<UnpackStepView>,
    dir: Seq<Seq<char>>,
) -> bool {
    exists|i: int| 0 <= i < steps.len() && unpacks(#[trigger] steps[i], file, dir)
}

/// Whether one of some steps writes the `SKILL.md` of a package with a text.
pub open spec fn write_instructions(steps: Seq<UnpackStepView>, text: Seq<char>) -> bool {
    exists|i: int| 0 <= i < steps.len() && is_instructions_step(#[trigger] steps[i], text)
}

/// Whether steps unpack what lies below a directory of an archive: each of them a
/// file of it, and each such file by one of them. The instructions, where there are
/// some, are those that one of the steps writes.
pub open spec fn unpack_whole(
    steps: Seq<UnpackStepView>,
    instructions: Option<Seq<char>>,
    files: Seq<zip_files::ZipFileView>,
    dir: Seq<Seq<char>>,
) -> bool {
    &&& forall|i: int| 0 <= i < steps.len() ==> unpacks_one(#[trigger] steps[i], files, dir)
    &&& forall|k: int|
        0 <= k < files.len() && lies_below(#[trigger] files[k], dir) ==> is_unpacked(
            files[k],
            steps,
            dir,
        )
    &&& instructions matches Some(text) ==> write_instructions(steps, text)
}

proof fn lemma_more_files(
    step: UnpackStepView,
    files: Seq<zip_files::ZipFileView>,
    dir: Seq<Seq<char>>,
)
    requires
        files.len() > 0,
    ensures
        unpacks_one(step, files.drop_last(), dir) ==> unpacks_one(step, files, dir),
        unpacks(step, files.last(), dir) ==> unpacks_one(step, files, dir),
{
    let init = files.drop_last();
    assert(files[files.len() - 1] == files.last());
    if unpacks_one(step, init, dir) {
        let k = choose|k: int| 0 <= k < init.len() && unpacks(step, #[trigger] init[k], dir);
        assert(files[k] == init[k]);
    }
}

proof fn lemma_more_steps(
    steps: Seq<UnpackStepView>,
    step: UnpackStepView,
    file: zip_files::ZipFileView,
    dir: Seq<Seq<char>>,
    text: Seq<char>,
)
    ensures
        is_unpacked(file, steps, dir) ==> is_unpacked(file, steps.push(step), dir),
        unpacks(step, file, dir) ==> is_unpacked(file, steps.push(step), dir),
        write_instructions(steps, text) ==> write_instructions(steps.push(step), text),
        is_instructions_step(step, text) ==> write_instructions(steps.push(step), text),
{
    let all = steps.push(step);
    assert(all[steps.len() as int] == step);
    if is_unpacked(file, steps, dir) {
        let i = choose|i: int| 0 <= i < steps.len() && unpacks(#[trigger] steps[i], file, dir);
        assert(all[i] == steps[i]);
    }
    if write_instructions(steps, text) {
        let i = choose|i: int|
            0 <= i < steps.len() && is_instructions_step(#[trigger] steps[i], text);
        assert(all[i] == steps[i]);
    }
}

proof fn lemma_unpacks_all(files: Seq<zip_files::ZipFileView>, dir: Seq<Seq<char>>)
    ensures
        unpacked(files, dir) matches Ok(all) ==> unpack_whole(
            all.steps,
            all.instructions,
            files,
            dir,
        ),
    decreases files.len(),
{
    if files.len() > 0 {
        let init = files.drop_last();
        let last = files.last();
        lemma_unpacks_all(init, dir);
        assert(files[files.len() - 1] == last);
        match unpacked(files, dir) {
            Ok(all) => {
                let before = unpacked(init, dir)->Ok_0;
                assert(unpack_whole(before.steps, before.instructions, init, dir));
                if lies_below(last, dir) {
                    let step = all.steps.last();
                    assert(all.steps =~= before.steps.push(step));
                    assert(unpacks(step, last, dir));
                    assert(all.instructions == before.instructions || is_instructions_step(
                        step,
                        all.instructions->Some_0,
                    ));
                } else {
                    assert(all == before);
                }
                assert forall|i: int| 0 <= i < all.steps.len() implies unpacks_one(
                    #[trigger] all.steps[i],
                    files,
                    dir,
                ) by {
                    lemma_more_files(all.steps[i], files, dir);
                    if i < before.steps.len() {
                        assert(all.steps[i] == before.steps[i]);
                    }
                }
                assert forall|k: int|
                    0 <= k < files.len() && lies_below(#[trigger] files[k], dir) implies is_unpacked(
                    files[k],
                    all.steps,
                    dir,
                ) by {
                    if lies_below(last, dir) {
                        lemma_more_steps(
                            before.steps,
                            all.steps.last(),
                            files[k],
                            dir,
                            Seq::empty(),
                        );
                    }
                    if k < init.len() {
                        assert(init[k] == files[k]);
                    }
                }
                match all.instructions {
                    Some(text) => {
                        if lies_below(last, dir) {
                            lemma_more_steps(before.steps, all.steps.last(), last, dir, text);
                        }
                    },
                    None => {},
                }
            },
            Err(_) => {},
        }
    }
}

/// Whether a step writes the `SKILL.md` of a package with a text.
pub open spec fn is_instructions_step(step: UnpackStepView, text: Seq<char>) -> bool {
    step matches UnpackStepView::File(path, bytes) && path == seq!["SKILL.md"@]
        && vstd::utf8::valid_utf8(bytes) && text == vstd::utf8::decode_utf8(bytes)
}

/// Every file below the directory of the instructions is unpacked with its bytes, to
/// where it lies below that directory, and nothing else is. The instructions are
/// the text of the `SKILL.md` in it.
pub proof fn law_package_is_unpacked_whole(files: Seq<zip_files::ZipFileView>)
    ensures
        unpacking_of(files) matches Ok(unpacking) ==> unpack_whole(
            unpacking.steps,
            Some(unpacking.instructions),
            files,
            instructions_directory(files),
        ),
{
    match unpacking_of(files) {
        Ok(_) => {
            lemma_unpacks_all(files, instructions_directory(files));
        },
        Err(_) => {},
    }
}

/// A skill that was imported is named after its archive, has the first version and
/// the instructions of the archive, and is active from now on.
pub proof fn law_imported_skill_is_that_of_the_archive(
    file_name: Seq<char>,
    archive: Seq<u8>,
    bytes: Seq<u8>,
    now: i64,
)
    ensures
        import_outcome(file_name, archive, bytes, now) matches Ok(done) ==> {
            let skill = done.0;
            &&& skill.id == "skill-"@ + ids::hex(bytes)
            &&& skill.title == text::trimmed(base_name_of(file_name))
            &&& skill.package_name == normalized(base_name_of(file_name)) + "-"@ + ids::hex(
                bytes,
            ).take(8)
            &&& skill.package_path == package_path_of(skill.package_name)
            &&& skill.source == "imported"@
            &&& skill.version == "1.0.0"@
            &&& skill.description.len() == 0
            &&& skill.instructions == done.1.instructions
            &&& skill.status == "active"@
            &&& skill.created_at == now
            &&& skill.updated_at == now
            &&& extraction_outcome(archive) == Ok::<UnpackingView, rejection::RejectionView>(
                done.1,
            )
        },
        import_outcome(file_name, archive, bytes, now) is Ok <==> {
            &&& text::finishes_with(text::lowered(file_name), ".zip"@)
            &&& extraction_outcome(archive) is Ok
        },
{
}

/// The name of an archive without its extension is what stands before it. An
/// extension in mixed case is not taken off, and such an archive has a name of its
/// own.
pub proof fn law_extension_is_taken_off(name: Seq<char>)
    ensures
        base_name_of(name + ".zip"@) == name,
        base_name_of(name + ".ZIP"@) == name,
        !text::finishes_with(name, ".zip"@) && !text::finishes_with(name, ".ZIP"@)
            ==> base_name_of(name) == "skill"@,
{
    reveal_strlit(".zip");
    reveal_strlit(".ZIP");
    let lower = name + ".zip"@;
    let upper = name + ".ZIP"@;
    assert(lower.skip(name.len() as int) =~= ".zip"@);
    assert(upper.skip(name.len() as int) =~= ".ZIP"@);
    assert(lower.take(name.len() as int) =~= name);
    assert(upper.take(name.len() as int) =~= name);
    assert(".zip"@[1] == 'z' && ".ZIP"@[1] == 'Z');
    assert(upper.skip(upper.len() - 4)[1] == 'Z');
    assert(!text::finishes_with(upper, ".zip"@));
}

/// Replacing the package of a skill gives it the instructions of the archive and the
/// next version, and leaves all else that the skill is.
pub proof fn law_replaced_package_changes_the_instructions(
    file_name: Seq<char>,
    archive: Seq<u8>,
    skill_id: Seq<char>,
    skills: Seq<catalog::OperationSkillView>,
    now: i64,
)
    ensures
        update_outcome(file_name, archive, skill_id, skills, now) matches Some(Ok(done)) ==> {
            let before = lookup::found::<OperationSkill>(skills, text::trimmed(skill_id))->Some_0;
            let skill = done.0;
            &&& skills.contains(before)
            &&& skill.id == text::trimmed(skill_id)
            &&& skill.version == versions::next_version(before.version)
            &&& skill.instructions == done.1.instructions
            &&& skill.package_path == package_path_of(before.package_name)
            &&& skill.updated_at == now
            &&& skill == (catalog::OperationSkillView {
                version: skill.version,
                instructions: skill.instructions,
                package_path: skill.package_path,
                updated_at: skill.updated_at,
                ..before
            })
            &&& extraction_outcome(archive) == Ok::<UnpackingView, rejection::RejectionView>(
                done.1,
            )
        },
        (update_outcome(file_name, archive, skill_id, skills, now) matches Some(Ok(_))) <==> {
            &&& text::finishes_with(text::lowered(file_name), ".zip"@)
            &&& lookup::found::<OperationSkill>(skills, text::trimmed(skill_id)) matches Some(
                skill,
            ) && versions::can_advance(skill.version)
            &&& extraction_outcome(archive) is Ok
        },
{
    lookup::lemma_found::<OperationSkill>(skills, text::trimmed(skill_id));
}

/// Whether what is written to an archive is one of the entries of a package: a file
/// with its bytes, or a directory with a slash behind its path, under its path with
/// slashes.
pub open spec fn packs(item: zip_files::ZipItemView, entry: PackageEntryView) -> bool {
    match entry.kind {
        EntryKindView::File(bytes) => item.bytes == Some(bytes) && item.name == text::replaced(
            entry.path,
            '\\',
            '/',
        ),
        EntryKindView::Directory => item.bytes is None && item.name == text::replaced(
            entry.path,
            '\\',
            '/',
        ).push('/'),
        _ => false,
    }
}

/// Whether what is written to an archive is one of some entries.
pub open spec fn packs_one(item: zip_files::ZipItemView, entries: Seq<PackageEntryView>) -> bool {
    exists|k: int| 0 <= k < entries.len() && packs(item, #[trigger] entries[k])
}

/// Whether an entry is among what is written to an archive.
pub open spec fn is_packed(entry: PackageEntryView, written: Seq<zip_files::ZipItemView>) -> bool {
    exists|i: int| 0 <= i < written.len() && packs(#[trigger] written[i], entry)
}

proof fn lemma_more_entries(item: zip_files::ZipItemView, entries: Seq<PackageEntryView>)
    requires
        entries.len() > 0,
    ensures
        packs_one(item, entries.drop_last()) ==> packs_one(item, entries),
        packs(item, entries.last()) ==> packs_one(item, entries),
{
    let init = entries.drop_last();
    assert(entries[entries.len() - 1] == entries.last());
    if packs_one(item, init) {
        let k = choose|k: int| 0 <= k < init.len() && packs(item, #[trigger] init[k]);
        assert(entries[k] == init[k]);
    }
}

proof fn lemma_more_written(
    entry: PackageEntryView,
    written: Seq<zip_files::ZipItemView>,
    item: zip_files::ZipItemView,
)
    ensures
        is_packed(entry, written) ==> is_packed(entry, written.push(item)),
        packs(item, entry) ==> is_packed(entry, written.push(item)),
{
    let all = written.push(item);
    assert(all[written.len() as int] == item);
    if is_packed(entry, written) {
        let i = choose|i: int| 0 <= i < written.len() && packs(#[trigger] written[i], entry);
        assert(all[i] == written[i]);
    }
}

/// What is written to the archive of a package are the files and the directories of
/// the package, and all of them.
pub proof fn law_package_is_packed_whole(entries: Seq<PackageEntryView>)
    ensures
        packed(entries) matches Ok(written) ==> {
            &&& forall|i: int|
                0 <= i < written.len() ==> packs_one(#[trigger] written[i], entries)
            &&& forall|k: int|
                0 <= k < entries.len() && ((#[trigger] entries[k]).kind is File
                    || entries[k].kind is Directory) ==> is_packed(entries[k], written)
            &&& forall|k: int|
                0 <= k < entries.len() ==> !((#[trigger] entries[k]).kind is Symlink)
        },
    decreases entries.len(),
{
    if entries.len() > 0 {
        let init = entries.drop_last();
        let last = entries.last();
        law_package_is_packed_whole(init);
        assert(entries[entries.len() - 1] == last);
        match packed(entries) {
            Ok(written) => {
                let before = packed(init)->Ok_0;
                let grows = last.kind is File || last.kind is Directory;
                if grows {
                    assert(written =~= before.push(written.last()));
                    assert(packs(written.last(), last));
                } else {
                    assert(written == before);
                }
                assert forall|i: int| 0 <= i < written.len() implies packs_one(
                    #[trigger] written[i],
                    entries,
                ) by {
                    lemma_more_entries(written[i], entries);
                    if i < before.len() {
                        assert(written[i] == before[i]);
                    }
                }
                assert forall|k: int|
                    0 <= k < entries.len() && ((#[trigger] entries[k]).kind is File
                        || entries[k].kind is Directory) implies is_packed(
                    entries[k],
                    written,
                ) by {
                    if grows {
                        lemma_more_written(entries[k], before, written.last());
                    }
                    if k < init.len() {
                        assert(init[k] == entries[k]);
                    }
                }
                assert forall|k: int| 0 <= k < entries.len() implies !((
                #[trigger] entries[k]).kind is Symlink) by {
                    if k < init.len() {
                        assert(init[k] == entries[k]);
                    }
                }
            },
            Err(_) => {},
        }
    }
}

/// The instructions of a package lie in its directory among the skills.
pub proof fn law_package_path_is_below_the_skills(package_name: Seq<char>)
    requires
        package_name.len() > 0,
        !package_name.contains('/'),
        !package_name.contains('\\'),
    ensures
        package_path_of(package_name) == "runtime/skills/"@ + package_name + "/SKILL.md"@,
{
    reveal_strlit("runtime/skills");
    reveal_strlit("runtime/skills/");
    reveal_strlit("SKILL.md");
    reveal_strlit("/SKILL.md");
    reveal_strlit("/");
    let base = "runtime/skills"@;
    let whole = "runtime/skills/"@ + package_name + "/SKILL.md"@;
    assert(package_name.take(1)[0] == package_name[0]);
    assert(package_name.contains(package_name[0]));
    assert("/"@[0] == '/');
    assert(!text::begins_with(package_name, "/"@)) by {
        if text::begins_with(package_name, "/"@) {
            assert(package_name.take(1)[0] == '/');
        }
    }
    assert(base.len() == 14);
    assert(base[13] == 's');
    assert(!text::finishes_with(base, "/"@)) by {
        if text::finishes_with(base, "/"@) {
            assert(base.skip(13)[0] == base[13]);
        }
    }
    let dir = paths::joined(base, package_name);
    assert(dir == base + "/"@ + package_name);
    assert(dir.last() == package_name.last());
    assert(package_name.contains(package_name.last()));
    assert(!text::finishes_with(dir, "/"@)) by {
        if text::finishes_with(dir, "/"@) {
            assert(dir.skip(dir.len() - 1)[0] == dir[dir.len() - 1]);
        }
    }
    assert("SKILL.md"@[0] == 'S');
    assert(!text::begins_with("SKILL.md"@, "/"@)) by {
        if text::begins_with("SKILL.md"@, "/"@) {
            assert("SKILL.md"@.take(1)[0] == "SKILL.md"@[0]);
        }
    }
    let joined = paths::joined(dir, "SKILL.md"@);
    assert(joined == dir + "/"@ + "SKILL.md"@);
    assert(joined =~= whole);
    assert forall|i: int| 0 <= i < whole.len() implies whole[i] != '\\' by {
        if i < 15 {
            assert(whole[i] == "runtime/skills/"@[i]);
        } else if i < 15 + package_name.len() {
            assert(whole[i] == package_name[i - 15]);
            assert(package_name.contains(package_name[i - 15]));
        } else {
            assert(whole[i] == "/SKILL.md"@[i - 15 - package_name.len()]);
        }
    }
    assert(text::replaced(joined, '\\', '/') =~= joined);
}

/// An archive that is refused is a bad request. A package that is to be replaced by a
/// sound name but is not there is not found.
pub proof fn law_refused_archive_says_why(
    file_name: Seq<char>,
    archive: Seq<u8>,
    bytes: Seq<u8>,
    skill_id: Seq<char>,
    skills: Seq<catalog::OperationSkillView>,
    package_name: Seq<char>,
    entries: Option<Seq<PackageEntryView>>,
    now: i64,
)
    ensures
        import_outcome(file_name, archive, bytes, now) matches Err(e) ==> e.status == 400,
        archive_outcome(package_name, entries) matches Err(e) ==> e.status == 400,
        update_outcome(file_name, archive, skill_id, skills, now) matches Some(Err(e)) ==> {
            &&& e.status == 400 || e.status == 404
            &&& e.status == 404 <==> text::finishes_with(text::lowered(file_name), ".zip"@)
                && lookup::found::<OperationSkill>(skills, text::trimmed(skill_id)) is None
        },
{
}

/// A package is packed only under a name that is one component of a path, where it is
/// there, and then into the archive of its entries.
pub proof fn law_package_is_packed_under_its_name(
    package_name: Seq<char>,
    entries: Option<Seq<PackageEntryView>>,
)
    ensures
        archive_outcome(package_name, entries) matches Ok(bytes) ==> {
            &&& paths::is_single_component(package_name)
            &&& entries matches Some(list) && archive_of(list) == Ok::<Seq<u8>, Seq<char>>(bytes)
            &&& packed(entries->Some_0) matches Ok(written) && zip_files::zip_finished(written)
                == Ok::<Seq<u8>, Seq<char>>(bytes)
        },
{
}

/// A name of letters, digits and underscores keeps them as the name of a package, in
/// lower case.
pub proof fn law_plain_name_is_kept_in_lower_case(s: Seq<char>)
    requires
        s.len() > 0,
        forall|i: int|
            0 <= i < s.len() ==> {
                let c = #[trigger] s[i];
                'a' <= c <= 'z' || 'A' <= c <= 'Z' || '0' <= c <= '9' || c == '_'
            },
    ensures
        normalized(s) == text::lowered(s),
{
    let all = s.map_values(|c: char| package_char(c));
    assert forall|i: int| 0 <= i < all.len() implies all[i] == #[trigger] text::lowered(s)[i]
        && all[i] != '-' by {
        let c = s[i];
        assert('a' <= c <= 'z' || 'A' <= c <= 'Z' || '0' <= c <= '9' || c == '_');
    }
    assert(all =~= text::lowered(s));
    assert(all[0] != '-') by {
        assert(all[0] == text::lowered(s)[0]);
    }
    assert(all[all.len() - 1] != '-') by {
        assert(all[all.len() - 1] == text::lowered(s)[all.len() - 1]);
    }
    assert(text::stripped(all, '-') == all);
}

/// Any other character stands as a hyphen in the name of a package, between two
/// characters that are kept.
pub proof fn law_other_characters_become_hyphens(a: Seq<char>, c: char, b: Seq<char>)
    requires
        a.len() > 0,
        b.len() > 0,
        forall|i: int| 0 <= i < a.len() ==> 'a' <= #[trigger] a[i] <= 'z',
        forall|i: int| 0 <= i < b.len() ==> 'a' <= #[trigger] b[i] <= 'z',
        !('a' <= c <= 'z' || 'A' <= c <= 'Z' || '0' <= c <= '9' || c == '_'),
    ensures
        normalized(a.push(c) + b) == a.push('-') + b,
{
    let s = a.push(c) + b;
    let all = s.map_values(|c: char| package_char(c));
    let wanted = a.push('-') + b;
    assert forall|i: int| 0 <= i < all.len() implies all[i] == wanted[i] by {
        if i < a.len() {
            assert(s[i] == a[i]);
        } else if i > a.len() {
            assert(s[i] == b[i - a.len() - 1]);
        }
    }
    assert(all =~= wanted);
    assert(wanted[0] == a[0]);
    assert(wanted.last() == b[b.len() - 1]);
    assert(text::stripped(all, '-') == all);
}

} // verus!
