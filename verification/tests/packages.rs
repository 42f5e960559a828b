use operation_center::avatars::{
    get_ai_employee_avatar, upload_ai_employee_avatar, upload_avatar_at,
};
use operation_center::catalog::{AiEmployeeProduct, OperationSkill};
use operation_center::installation::{first_move, next_move, Move, Next};
use operation_center::paths::{ai_employee_avatar_dir, join, plain_name, single_component};
use operation_center::zip_files::ZipHeader;
use operation_center::skill_package::{
    name_in_archive, relative_path, scan_file, unpack_file, Scan, Unpacked,
    archive_base_name, archive_operation_skill_package, check_archive_name, check_package_name,
    extract_skill_package, import_operation_skill, import_package_name, import_skill_at,
    normalize_package_name, package_path, update_operation_skill_archive, EntryKind, PackageEntry,
    UnpackStep,
};

fn s(text: &str) -> String {
    text.to_string()
}

fn directory(path: &str) -> PackageEntry {
    PackageEntry {
        path: s(path),
        kind: EntryKind::Directory,
    }
}

fn file(path: &str, bytes: &[u8]) -> PackageEntry {
    PackageEntry {
        path: s(path),
        kind: EntryKind::File(bytes.to_vec()),
    }
}

fn skill(package_name: &str) -> OperationSkill {
    OperationSkill {
        id: s("skill-1"),
        title: s("报价"),
        package_name: s(package_name),
        source: s("imported"),
        version: s("1.0.9"),
        package_path: s("old"),
        description: s(""),
        instructions: s("old"),
        status: s("inactive"),
        created_at: 1,
        updated_at: 2,
    }
}

fn product(avatar: Option<&str>) -> AiEmployeeProduct {
    AiEmployeeProduct {
        id: s("emp_1"),
        title: s("报价助手"),
        description: s(""),
        category: s("通用"),
        price_cents: 0,
        billing_cycle: s("year"),
        version: s("1.0.0"),
        package_version: s("1.0.0"),
        skill_ids: vec![],
        system_prompt: s(""),
        allow_network: false,
        allowed_tools: vec![],
        application_ids: vec![],
        avatar_url: avatar.map(s),
        status: s("active"),
        created_at: 0,
        updated_at: 0,
    }
}

fn packed(entries: Vec<PackageEntry>) -> Vec<u8> {
    archive_operation_skill_package(&skill("quote"), &Some(entries)).unwrap()
}

fn refused(archive: Vec<u8>) -> (u16, String) {
    let refusal = extract_skill_package(archive).err().unwrap();
    (refusal.status, refusal.message)
}

#[test]
fn package_names_are_plain() {
    assert_eq!(normalize_package_name("Quote Helper_2"), "quote-helper_2");
    assert_eq!(normalize_package_name("--报价 A--"), "a");
    assert_eq!(normalize_package_name("报价"), "skill");
    assert_eq!(normalize_package_name(""), "skill");
    let once = normalize_package_name("  A.b/C  ");
    assert_eq!(once, "a-b-c");
    assert_eq!(normalize_package_name(&once), once);
}

#[test]
fn archives_are_told_by_their_names() {
    assert!(check_archive_name("a.ZiP", "no").is_none());
    let refusal = check_archive_name("a.tar", "no").unwrap();
    assert_eq!((refusal.status, refusal.message.as_str()), (400, "no"));
    assert_eq!(archive_base_name("a.b.zip"), "a.b");
    assert_eq!(archive_base_name("a.ZIP"), "a");
    assert_eq!(archive_base_name("a.Zip"), "skill");
}

#[test]
fn import_names_carry_the_identifier() {
    let bytes = vec![0xab; 16];
    assert_eq!(import_package_name("Quote.zip", &bytes), "quote-abababab");
    assert_eq!(package_path("quote-abababab"), "runtime/skills/quote-abababab/SKILL.md");
    assert_eq!(package_path("a\\b"), "runtime/skills/a/b/SKILL.md");
    assert_eq!(package_path("/a"), "/a/SKILL.md");
}

#[test]
fn packed_package_is_unpacked_again() {
    let archive = packed(vec![
        file("SKILL.md", "说明".as_bytes()),
        directory("scripts"),
        file("scripts/run.sh", b"echo"),
    ]);
    assert_eq!(&archive[..2], b"PK");
    let unpacking = extract_skill_package(archive).unwrap();
    assert_eq!(unpacking.instructions, "说明");
    assert_eq!(unpacking.steps.len(), 3);
    assert!(matches!(&unpacking.steps[0], UnpackStep::File(path, bytes)
        if path == &vec![s("SKILL.md")] && bytes == "说明".as_bytes()));
    assert!(matches!(&unpacking.steps[1], UnpackStep::Directory(path)
        if path == &vec![s("scripts")]));
    assert!(matches!(&unpacking.steps[2], UnpackStep::File(path, bytes)
        if path == &vec![s("scripts"), s("run.sh")] && bytes == b"echo"));
}

#[test]
fn only_the_directory_of_the_instructions_is_unpacked() {
    let archive = packed(vec![
        file("README.md", b"outside"),
        directory("quote"),
        file("quote/SKILL.md", b"inside"),
        file("quote/a/b.txt", b"b"),
    ]);
    let unpacking = extract_skill_package(archive).unwrap();
    assert_eq!(unpacking.instructions, "inside");
    assert_eq!(unpacking.steps.len(), 2);
    assert!(matches!(&unpacking.steps[1], UnpackStep::File(path, _)
        if path == &vec![s("a"), s("b.txt")]));
}

#[test]
fn paths_stay_inside_the_archive() {
    let beside = packed(vec![file("a/SKILL.md", b"x"), file("a/../b.txt", b"b")]);
    let unpacking = extract_skill_package(beside).unwrap();
    assert_eq!(unpacking.steps.len(), 2);
    assert!(matches!(&unpacking.steps[1], UnpackStep::File(path, bytes)
        if path == &vec![s(".."), s("b.txt")] && bytes == b"b"));
    let above = packed(vec![file("a/SKILL.md", b"x"), file("a/../../b.txt", b"b")]);
    assert_eq!(refused(above), (400, s("Skill 压缩包包含不安全的文件路径")));
}

#[test]
fn last_instructions_decide() {
    let archive = packed(vec![file("SKILL.md", b"first"), file("x/SKILL.md", b"second")]);
    let unpacking = extract_skill_package(archive).unwrap();
    assert_eq!(unpacking.instructions, "second");
    assert_eq!(unpacking.steps.len(), 1);
}

#[test]
fn flawed_archives_are_refused() {
    let size = s("Skill 压缩包不能为空且不得超过 10 MB");
    assert_eq!(refused(vec![]), (400, size.clone()));
    assert_eq!(refused(vec![0; 10_485_761]), (400, size));
    let unreadable = refused(b"not an archive".to_vec());
    assert_eq!(unreadable.0, 400);
    assert!(unreadable.1.starts_with("无法读取 Skill ZIP 文件："));
    assert!(unreadable.1.len() > "无法读取 Skill ZIP 文件：".len());
    assert_eq!(
        refused(packed(vec![file("README.md", b"x")])),
        (400, s("Skill 压缩包必须包含 SKILL.md"))
    );
    assert_eq!(
        refused(packed(vec![file("SKILL.md", &[0xff, 0xfe])])),
        (400, s("SKILL.md 必须是 UTF-8 文本"))
    );
    assert_eq!(
        refused(packed(vec![file("SKILL.md", b"x"), file("../evil.txt", b"x")])),
        (400, s("Skill 压缩包包含不安全的文件路径"))
    );
}

#[test]
fn large_archives_are_refused() {
    let many: Vec<PackageEntry> = (0..257).map(|i| file(&format!("{i}.txt"), b"")).collect();
    assert_eq!(
        refused(packed(many)),
        (400, s("Skill 压缩包中的文件数量不能超过 256 个"))
    );
    let zeros = vec![0; 20_971_520];
    assert_eq!(
        refused(packed(vec![file("SKILL.md", b"x"), file("big", &zeros)])),
        (400, s("Skill 压缩包解压后不得超过 20 MB"))
    );
}

fn found(path: Option<&[&str]>, size: u64, is_dir: bool) -> ZipHeader {
    ZipHeader {
        path: path.map(|parts| parts.iter().map(|part| s(part)).collect()),
        size,
        is_dir,
    }
}

#[test]
fn files_are_scanned_one_by_one() {
    let start = || Scan {
        total: 7,
        prefix: None,
    };
    let scan = scan_file(start(), found(Some(&["a", "SKILL.md"]), 3, false)).unwrap_or_else(|e| panic!("{e}"));
    assert_eq!(scan.total, 10);
    assert_eq!(scan.prefix, Some(vec![s("a")]));
    let scan = scan_file(start(), found(Some(&["a", "SKILL.md"]), 3, true)).unwrap_or_else(|e| panic!("{e}"));
    assert_eq!(scan.prefix, None);
    assert_eq!(
        scan_file(start(), found(None, 3, false)).err(),
        Some(s("Skill 压缩包包含不安全的文件路径"))
    );
    assert!(scan_file(start(), found(Some(&["b"]), 20_971_513, false)).is_ok());
    assert_eq!(
        scan_file(start(), found(Some(&["b"]), 20_971_514, false)).err(),
        Some(s("Skill 压缩包解压后不得超过 20 MB"))
    );
    assert!(scan_file(start(), found(Some(&["b"]), u64::MAX, false)).is_err());
}

#[test]
fn files_are_unpacked_one_by_one() {
    let dir = vec![s("a")];
    let start = || Unpacked {
        steps: vec![],
        instructions: None,
    };
    assert_eq!(
        relative_path(&found(Some(&["a", "b", "c"]), 0, false), &dir),
        Some(vec![s("b"), s("c")])
    );
    assert_eq!(relative_path(&found(Some(&["a"]), 0, true), &dir), None);
    assert_eq!(relative_path(&found(Some(&["ab", "c"]), 0, false), &dir), None);
    let manifest = found(Some(&["a", "SKILL.md"]), 0, false);
    let more = unpack_file(start(), &manifest, Ok(b"do".to_vec()), &dir).unwrap_or_else(|e| panic!("{e}"));
    assert_eq!(more.instructions, Some(s("do")));
    assert_eq!(more.steps.len(), 1);
    assert_eq!(
        unpack_file(start(), &manifest, Ok(vec![0xff]), &dir).err(),
        Some(s("SKILL.md 必须是 UTF-8 文本"))
    );
    assert_eq!(
        unpack_file(start(), &manifest, Err(s("broken")), &dir).err(),
        Some(s("broken"))
    );
    let outside = found(Some(&["b"]), 0, false);
    let same = unpack_file(start(), &outside, Err(s("broken")), &dir).unwrap_or_else(|e| panic!("{e}"));
    assert!(same.steps.is_empty() && same.instructions.is_none());
    let folder = found(Some(&["a", "SKILL.md"]), 0, true);
    let more = unpack_file(start(), &folder, Ok(vec![]), &dir).unwrap_or_else(|e| panic!("{e}"));
    assert!(more.instructions.is_none());
    assert!(matches!(&more.steps[0], UnpackStep::Directory(path) if path == &vec![s("SKILL.md")]));
}

#[test]
fn entries_have_names_in_archives() {
    assert_eq!(name_in_archive(&directory("a\\b")).ok().unwrap(), Some(s("a/b/")));
    assert_eq!(name_in_archive(&file("a", b"")).ok().unwrap(), Some(s("a")));
}

#[test]
fn packing_can_fail() {
    let refuse = |name: &str, entries: &Option<Vec<PackageEntry>>| {
        let refusal = archive_operation_skill_package(&skill(name), entries).err().unwrap();
        (refusal.status, refusal.message)
    };
    for name in ["", ".", "..", "a/b", "/a"] {
        assert_eq!(refuse(name, &Some(vec![])), (400, s("Skill 包名无效")));
    }
    assert_eq!(refuse("quote", &None), (400, s("Skill 文件包不存在")));
    let link = PackageEntry {
        path: s("link"),
        kind: EntryKind::Symlink,
    };
    assert_eq!(
        refuse("quote", &Some(vec![file("SKILL.md", b"x"), link])),
        (400, s("Skill 文件包不能包含符号链接"))
    );
    let longest = "a".repeat(65_535);
    assert!(packed(vec![file(&longest, b"x")]).len() > 65_535);
    assert!(packed(vec![directory(&longest[1..])]).len() > 65_535);
    for long in [file(&"中".repeat(21_846), b"x"), directory(&longest)] {
        assert_eq!(refuse("quote", &Some(vec![long])), (400, s("Skill 文件路径无效")));
    }
    let twice = refuse("quote", &Some(vec![file("SKILL.md", b"x"), file("SKILL.md", b"y")]));
    assert_eq!(twice.0, 400);
    assert!(twice.1.starts_with("无法写入 Skill 文件包："));
}

#[test]
fn special_files_are_left_out() {
    let pipe = PackageEntry {
        path: s("pipe"),
        kind: EntryKind::Other,
    };
    let unpacking = extract_skill_package(packed(vec![pipe, file("SKILL.md", b"x")])).unwrap();
    assert_eq!(unpacking.steps.len(), 1);
    assert!(check_package_name("quote").is_none());
}

#[test]
fn imported_skill_is_as_its_archive() {
    let bytes = vec![0x0f; 16];
    let archive = packed(vec![file("SKILL.md", b"do it")]);
    let (made, unpacking) = import_skill_at(" Quote.zip", archive, &bytes, 7).unwrap();
    assert_eq!(made.id, format!("skill-{}", "0f".repeat(16)));
    assert_eq!(made.title, "Quote");
    assert_eq!(made.package_name, "quote-0f0f0f0f");
    assert_eq!(made.package_path, "runtime/skills/quote-0f0f0f0f/SKILL.md");
    assert_eq!(made.source, "imported");
    assert_eq!(made.version, "1.0.0");
    assert_eq!(made.instructions, "do it");
    assert_eq!(made.status, "active");
    assert_eq!(made.created_at, 7);
    assert_eq!(unpacking.instructions, "do it");
}

#[test]
fn import_takes_archives_only() {
    let archive = packed(vec![file("SKILL.md", b"do it")]);
    let refusal = import_operation_skill("quote.rar", archive.clone()).err().unwrap();
    assert_eq!(
        (refusal.status, refusal.message.as_str()),
        (400, "Skill 导入仅支持 .zip 文件")
    );
    let (made, _) = import_operation_skill("quote.zip", archive).unwrap();
    assert_eq!(made.id.len(), 38);
    assert!(made.package_name.starts_with("quote-"));
    assert!(made.created_at > 0);
}

#[test]
fn replaced_package_is_ahead() {
    let archive = packed(vec![file("SKILL.md", b"new")]);
    let skills = vec![skill("quote")];
    let (made, _) = update_operation_skill_archive("a.zip", archive.clone(), " skill-1 ", &skills, 9)
        .unwrap()
        .unwrap();
    assert_eq!(made.version, "1.1.0");
    assert_eq!(made.instructions, "new");
    assert_eq!(made.package_path, "runtime/skills/quote/SKILL.md");
    assert_eq!(made.status, "inactive");
    assert_eq!(made.updated_at, 9);
    let refusal = update_operation_skill_archive("a.rar", archive.clone(), "skill-1", &skills, 9)
        .unwrap()
        .err()
        .unwrap();
    assert_eq!(refusal.message, "Skill 更新仅支持 .zip 文件");
    let refusal = update_operation_skill_archive("a.zip", archive.clone(), "skill-2", &skills, 9)
        .unwrap()
        .err()
        .unwrap();
    assert_eq!((refusal.status, refusal.message.as_str()), (404, "Skill 不存在"));
    let mut last = skill("quote");
    last.version = s("1.0.18446744073709551615");
    assert!(update_operation_skill_archive("a.zip", archive, "skill-1", &vec![last], 9).is_none());
}

fn installed(replaces: bool, fails: &[&str]) -> (bool, Vec<&'static str>) {
    let mut done = Vec::new();
    let mut step = first_move(replaces);
    loop {
        let name = match step {
            Move::SetAside => "set aside",
            Move::Install => "install",
            Move::Restore => "restore",
            Move::DropUnpacked => "drop unpacked",
            Move::DropOld => "drop old",
        };
        done.push(name);
        match next_move(replaces, &step, !fails.contains(&name)) {
            Next::Go(more) => step = more,
            Next::Installed => return (true, done),
            Next::Failed => return (false, done),
        }
    }
}

#[test]
fn packages_are_installed_or_put_back() {
    assert_eq!(installed(false, &[]), (true, vec!["install"]));
    assert_eq!(installed(true, &[]), (true, vec!["set aside", "install", "drop old"]));
    assert_eq!(
        installed(true, &["install"]),
        (false, vec!["set aside", "install", "restore", "drop unpacked"])
    );
    assert_eq!(
        installed(true, &["set aside"]),
        (false, vec!["set aside", "drop unpacked"])
    );
    assert_eq!(installed(false, &["install"]), (false, vec!["install", "drop unpacked"]));
}

#[test]
fn pictures_have_a_size() {
    let products = vec![product(None)];
    for size in [0, 5_242_881] {
        let refusal = upload_ai_employee_avatar("emp_1", size, &products).err().unwrap();
        assert_eq!(
            (refusal.status, refusal.message.as_str()),
            (400, "头像文件需小于 5MB")
        );
    }
    let refusal = upload_ai_employee_avatar("emp_2", 5, &products).err().unwrap();
    assert_eq!((refusal.status, refusal.message.as_str()), (404, "AI 员工不存在"));
    assert!(upload_ai_employee_avatar("emp_1", 5_242_880, &products).is_ok());
}

#[test]
fn received_picture_is_given_out() {
    let products = vec![product(Some("old.webp"))];
    let bytes: Vec<u8> = (0..16).collect();
    let upload = upload_avatar_at("emp_1", 5, &products, &bytes, 9).ok().unwrap();
    assert_eq!(upload.file_name, "emp_1-00010203-0405-0607-0809-0a0b0c0d0e0f.webp");
    assert_eq!(upload.previous, Some(s("old.webp")));
    assert_eq!(upload.product.updated_at, 9);
    assert_eq!(upload.product.version, "1.0.0");
    assert_eq!(
        get_ai_employee_avatar("emp_1", &vec![upload.product]).ok().unwrap(),
        upload.file_name
    );
}

#[test]
fn missing_pictures_are_told() {
    let refusal = get_ai_employee_avatar("emp_1", &vec![product(None)]).err().unwrap();
    assert_eq!((refusal.status, refusal.message.as_str()), (404, "头像不存在"));
    let refusal = get_ai_employee_avatar("emp_2", &vec![product(None)]).err().unwrap();
    assert_eq!((refusal.status, refusal.message.as_str()), (404, "AI 员工不存在"));
}

#[test]
fn paths_are_put_together() {
    assert_eq!(join("a", "b"), "a/b");
    assert_eq!(join("a/", "b"), "a/b");
    assert_eq!(join("", "b"), "b");
    assert_eq!(join("a", "/b"), "/b");
    assert_eq!(ai_employee_avatar_dir(&Some(s("data"))), vec!["data", "avatars", "ai-employees"]);
    assert_eq!(ai_employee_avatar_dir(&None), vec![".", "avatars", "ai-employees"]);
}

#[test]
fn names_are_single_components() {
    assert!(plain_name("a.webp"));
    assert!(!plain_name("a/b.webp"));
    assert!(!plain_name(".."));
    assert!(single_component("a"));
    assert!(single_component("a/"));
    assert!(single_component("a/."));
    assert!(!single_component("./a"));
    assert!(!single_component("a/b"));
    assert!(!single_component(".."));
    assert!(!single_component(""));
}
