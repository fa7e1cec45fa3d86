use usvfs::{
    add_skip_directory, add_skip_file_suffix, blacklist_executable, clear_executable_blacklist,
    clear_library_force_loads, clear_skip_directories, clear_skip_file_suffixes,
    clear_virtual_mappings, connect_vfs, encode_wide, create_process_hooked, create_vfs, create_vfs_dump,
    disconnect_vfs, force_load_library, get_current_VFS_name, get_log_message, init_logging,
    plan_process_hooked, resolve, virtually_link_directory_static, virtually_link_file,
    ConfigurationError, InjectionStatus, LinkErrorKind, Parameters, SessionError, SessionState,
    SourceEntry, SpawnError, Vfs, LINKFLAG_CREATETARGET, LINKFLAG_FAILIFEXISTS,
    LINKFLAG_FAILIFSKIPPED, LINKFLAG_RECURSIVE,
};

fn params(name: &str) -> Parameters {
    let mut p = Parameters::new();
    p.set_instance_name(name).unwrap();
    p
}

fn created(name: &str) -> Vfs {
    let mut vfs = Vfs::new();
    create_vfs(&mut vfs, &params(name)).unwrap();
    vfs
}

#[test]
fn end_to_end_recursive_link_resolves_file() {
    let mut vfs = created("test");
    let entries = vec![SourceEntry::new("plugin.dll", false)];
    virtually_link_directory_static(
        &mut vfs,
        "C:\\real\\mod1",
        "/game/data",
        LINKFLAG_RECURSIVE,
        &entries,
    )
    .unwrap();
    assert_eq!(
        resolve(&vfs, "/game/data/plugin.dll"),
        "C:\\real\\mod1\\plugin.dll"
    );
}

#[test]
fn direct_redirect_resolves_to_its_target() {
    let mut vfs = created("test");
    virtually_link_file(&mut vfs, "C:\\mods\\a\\readme.txt", "/game/readme.txt", 0).unwrap();
    assert_eq!(resolve(&vfs, "/game/readme.txt"), "C:\\mods\\a\\readme.txt");
    assert_eq!(resolve(&vfs, "\\GAME\\ReadMe.TXT"), "C:\\mods\\a\\readme.txt");
}

#[test]
fn innermost_create_target_wins() {
    let mut vfs = created("test");
    virtually_link_file(&mut vfs, "C:\\outer", "/A", LINKFLAG_CREATETARGET).unwrap();
    virtually_link_file(&mut vfs, "C:\\inner", "/A/B", LINKFLAG_CREATETARGET).unwrap();
    assert_eq!(resolve(&vfs, "/A/B/C"), "C:\\inner\\C");
    assert_eq!(resolve(&vfs, "/A/X/C"), "C:\\outer\\X\\C");
}

#[test]
fn unmapped_path_passes_through() {
    let mut vfs = created("test");
    virtually_link_file(&mut vfs, "C:\\mods\\x.esp", "/game/data/x.esp", 0).unwrap();
    assert_eq!(resolve(&vfs, "/other/file.txt"), "/other/file.txt");
    assert_eq!(resolve(&vfs, "/game/data/y.esp"), "/game/data/y.esp");
    let empty = Vfs::new();
    assert_eq!(resolve(&empty, "C:/x//y"), "C:/x//y");
}

#[test]
fn create_resets_the_mapping_store() {
    let mut vfs = created("first");
    virtually_link_file(&mut vfs, "C:\\m\\f", "/d/f", 0).unwrap();
    assert_eq!(resolve(&vfs, "/d/f"), "C:\\m\\f");
    create_vfs(&mut vfs, &params("second")).unwrap();
    assert_eq!(resolve(&vfs, "/d/f"), "/d/f");
    assert_eq!(create_vfs_dump(&vfs).unwrap(), "");
    assert_eq!(get_current_VFS_name(&vfs), "second");
}

#[test]
fn disconnect_twice_is_harmless() {
    let mut vfs = created("test");
    virtually_link_file(&mut vfs, "C:\\m\\f", "/d/f", 0).unwrap();
    disconnect_vfs(&mut vfs);
    assert_eq!(vfs.state, SessionState::Disconnected);
    assert!(!vfs.hooked);
    disconnect_vfs(&mut vfs);
    assert_eq!(vfs.state, SessionState::Disconnected);
    assert_eq!(get_current_VFS_name(&vfs), "");
    assert_eq!(resolve(&vfs, "/d/f"), "C:\\m\\f");
    let mut fresh = Vfs::new();
    disconnect_vfs(&mut fresh);
    assert_eq!(fresh.state, SessionState::Uninitialized);
}

#[test]
fn fail_if_exists_refuses_a_second_link() {
    let mut vfs = created("test");
    virtually_link_file(&mut vfs, "C:\\one\\f.txt", "/d/f.txt", 0).unwrap();
    let err = virtually_link_file(&mut vfs, "C:\\two\\f.txt", "/d/f.txt", LINKFLAG_FAILIFEXISTS)
        .unwrap_err();
    assert_eq!(err.kind, LinkErrorKind::AlreadyLinked);
    assert_eq!(err.destination, "/d/f.txt");
    assert_eq!(resolve(&vfs, "/d/f.txt"), "C:\\one\\f.txt");
    virtually_link_file(&mut vfs, "C:\\two\\f.txt", "/d/f.txt", 0).unwrap();
    assert_eq!(resolve(&vfs, "/d/f.txt"), "C:\\two\\f.txt");
}

#[test]
fn fail_if_exists_needs_a_virtual_parent() {
    let mut vfs = created("test");
    let err = virtually_link_file(&mut vfs, "C:\\s\\f", "/nowhere/f", LINKFLAG_FAILIFEXISTS)
        .unwrap_err();
    assert_eq!(err.kind, LinkErrorKind::DestinationMissingVirtualAncestor);
    assert_eq!(err.destination, "/nowhere/f");
    virtually_link_file(&mut vfs, "C:\\s\\g", "/nowhere/g", 0).unwrap();
    virtually_link_file(&mut vfs, "C:\\s\\f", "/nowhere/f", LINKFLAG_FAILIFEXISTS).unwrap();
    assert_eq!(resolve(&vfs, "/nowhere/f"), "C:\\s\\f");
}

fn git_tree() -> Vec<SourceEntry> {
    vec![
        SourceEntry::new("src", true),
        SourceEntry::new("src/.git", true),
        SourceEntry::new("src/.git/config", false),
        SourceEntry::new("src/main.rs", false),
    ]
}

#[test]
fn skipped_directory_is_not_mapped() {
    let mut vfs = created("test");
    add_skip_directory(&mut vfs, ".git");
    virtually_link_directory_static(&mut vfs, "C:\\proj", "/p", LINKFLAG_RECURSIVE, &git_tree())
        .unwrap();
    assert_eq!(resolve(&vfs, "/p/src/main.rs"), "C:\\proj\\src\\main.rs");
    assert_eq!(resolve(&vfs, "/p/src/.git/config"), "/p/src/.git/config");
    assert_eq!(create_vfs_dump(&vfs).unwrap(), "/p\n/p/src\n/p/src/main.rs -> C:\\proj\\src\\main.rs\n");
}

#[test]
fn fail_if_skipped_rejects_the_whole_link() {
    let mut vfs = created("test");
    add_skip_directory(&mut vfs, ".GIT");
    let err = virtually_link_directory_static(
        &mut vfs,
        "C:\\proj",
        "/p",
        LINKFLAG_RECURSIVE | LINKFLAG_FAILIFSKIPPED,
        &git_tree(),
    )
    .unwrap_err();
    assert_eq!(err.kind, LinkErrorKind::SkippedEntryRejected);
    assert_eq!(err.destination, "/p");
    assert_eq!(resolve(&vfs, "/p/src/main.rs"), "/p/src/main.rs");
    assert_eq!(create_vfs_dump(&vfs).unwrap(), "");
}

#[test]
fn skip_suffix_and_non_recursive_link() {
    let mut vfs = created("test");
    add_skip_file_suffix(&mut vfs, ".bak");
    let entries = vec![
        SourceEntry::new("a.txt", false),
        SourceEntry::new("a.txt.BAK", false),
        SourceEntry::new("sub/b.txt", false),
    ];
    virtually_link_directory_static(&mut vfs, "D:\\src", "/dst", 0, &entries).unwrap();
    assert_eq!(resolve(&vfs, "/dst/a.txt"), "D:\\src\\a.txt");
    assert_eq!(resolve(&vfs, "/dst/a.txt.bak"), "/dst/a.txt.bak");
    assert_eq!(resolve(&vfs, "/dst/sub/b.txt"), "/dst/sub/b.txt");
    clear_skip_file_suffixes(&mut vfs);
    virtually_link_directory_static(&mut vfs, "D:\\src", "/dst", LINKFLAG_RECURSIVE, &entries)
        .unwrap();
    assert_eq!(resolve(&vfs, "/dst/a.txt.bak"), "D:\\src\\a.txt.BAK");
    assert_eq!(resolve(&vfs, "/dst/sub/b.txt"), "D:\\src\\sub\\b.txt");
}

#[test]
fn cleared_skip_directories_no_longer_filter() {
    let mut vfs = created("test");
    add_skip_directory(&mut vfs, ".git");
    clear_skip_directories(&mut vfs);
    virtually_link_directory_static(&mut vfs, "C:\\proj", "/p", LINKFLAG_RECURSIVE, &git_tree())
        .unwrap();
    assert_eq!(resolve(&vfs, "/p/src/.git/config"), "C:\\proj\\src\\.git\\config");
}

#[test]
fn static_create_target_link_redirects_new_files() {
    let mut vfs = created("test");
    virtually_link_directory_static(&mut vfs, "C:\\overwrite", "/game", LINKFLAG_CREATETARGET, &vec![])
        .unwrap();
    assert_eq!(resolve(&vfs, "/game/new/file.ini"), "C:\\overwrite\\new\\file.ini");
    assert_eq!(create_vfs_dump(&vfs).unwrap(), "/game => C:\\overwrite\n");
}

#[test]
fn blacklisted_executable_runs_unhooked() {
    let mut vfs = created("test");
    blacklist_executable(&mut vfs, "tool.exe");
    let plan = plan_process_hooked(&vfs, "C:\\bin\\TOOL.EXE").unwrap();
    assert!(!plan.inject);
    let handle = create_process_hooked(&mut vfs, "C:\\bin\\TOOL.EXE", Ok(42)).unwrap();
    assert_eq!(handle.process_id, 42);
    assert_eq!(handle.status, InjectionStatus::NotAttached);
    let hooked = create_process_hooked(&mut vfs, "C:\\bin\\game.exe", Ok(7)).unwrap();
    assert_eq!(hooked.status, InjectionStatus::Attached);
    assert_eq!(vfs.processes.len(), 2);
    clear_executable_blacklist(&mut vfs);
    let again = create_process_hooked(&mut vfs, "C:\\bin\\tool.exe", Ok(43)).unwrap();
    assert_eq!(again.status, InjectionStatus::Attached);
}

#[test]
fn spawn_failure_reports_the_os_code() {
    let mut vfs = created("test");
    let err = create_process_hooked(&mut vfs, "C:\\bin\\game.exe", Err(2)).unwrap_err();
    assert_eq!(err, SpawnError::SpawnFailed { os_code: 2 });
    assert!(vfs.processes.is_empty());
}

#[test]
fn forced_libraries_follow_the_process_name() {
    let mut vfs = created("test");
    let mut p = params("test");
    p.set_process_delay(250).unwrap();
    create_vfs(&mut vfs, &p).unwrap();
    force_load_library(&mut vfs, "game.exe", "C:\\libs\\a.dll");
    force_load_library(&mut vfs, "other.exe", "C:\\libs\\b.dll");
    force_load_library(&mut vfs, "GAME.exe", "C:\\libs\\c.dll");
    let plan = plan_process_hooked(&vfs, "D:\\games\\game.exe").unwrap();
    assert!(plan.inject);
    assert_eq!(plan.delay_ms, 250);
    assert_eq!(plan.libraries, vec!["C:\\libs\\a.dll".to_string(), "C:\\libs\\c.dll".to_string()]);
    clear_library_force_loads(&mut vfs);
    let plan = plan_process_hooked(&vfs, "D:\\games\\game.exe").unwrap();
    assert!(plan.libraries.is_empty());
}

#[test]
fn operations_need_an_active_session() {
    let mut vfs = Vfs::new();
    let err = virtually_link_file(&mut vfs, "C:\\a", "/a", 0).unwrap_err();
    assert_eq!(err.kind, LinkErrorKind::NotConnected);
    let err = virtually_link_directory_static(&mut vfs, "C:\\a", "/a", 0, &vec![]).unwrap_err();
    assert_eq!(err.kind, LinkErrorKind::NotConnected);
    assert_eq!(clear_virtual_mappings(&mut vfs), Err(SessionError::NotConnected));
    assert_eq!(create_vfs_dump(&vfs), Err(SessionError::NotConnected));
    assert_eq!(
        create_process_hooked(&mut vfs, "a.exe", Ok(1)).unwrap_err(),
        SpawnError::NotConnected
    );
    assert!(matches!(plan_process_hooked(&vfs, "a.exe"), Err(SpawnError::NotConnected)));
}

#[test]
fn create_accepts_any_instance_name() {
    let mut vfs = Vfs::new();
    assert_eq!(create_vfs(&mut vfs, &Parameters::new()), Ok(()));
    assert_eq!(vfs.state, SessionState::Created);
    assert!(vfs.hooked);
}

#[test]
fn fail_if_exists_needs_every_ancestor() {
    let mut vfs = created("test");
    let entries = vec![SourceEntry::new("x/f", true)];
    virtually_link_directory_static(&mut vfs, "C:\\s", "/d", LINKFLAG_RECURSIVE, &entries).unwrap();
    let err = virtually_link_file(&mut vfs, "C:\\g", "/d/x/f/g", LINKFLAG_FAILIFEXISTS).unwrap_err();
    assert_eq!(err.kind, LinkErrorKind::DestinationMissingVirtualAncestor);
    assert_eq!(resolve(&vfs, "/d/x/f/g"), "/d/x/f/g");
    virtually_link_file(&mut vfs, "C:\\g", "/d/x/f/g", 0).unwrap();
    virtually_link_file(&mut vfs, "C:\\h", "/d/x/f/h", LINKFLAG_FAILIFEXISTS).unwrap();
    assert_eq!(resolve(&vfs, "/d/x/f/h"), "C:\\h");
}

#[test]
fn fail_if_exists_refuses_an_existing_static_destination() {
    let mut vfs = created("test");
    let entries = vec![SourceEntry::new("a.txt", false)];
    virtually_link_directory_static(&mut vfs, "C:\\one", "/d", LINKFLAG_FAILIFEXISTS, &entries).unwrap();
    let err = virtually_link_directory_static(&mut vfs, "C:\\two", "/d", LINKFLAG_FAILIFEXISTS, &entries)
        .unwrap_err();
    assert_eq!(err.kind, LinkErrorKind::AlreadyLinked);
    assert_eq!(err.destination, "/d");
    assert_eq!(resolve(&vfs, "/d/a.txt"), "C:\\one\\a.txt");
}

#[test]
fn connect_attaches_without_reset_or_hooks() {
    let mut vfs = Vfs::new();
    assert_eq!(connect_vfs(&mut vfs, &params("shared")), Err(SessionError::NoSuchInstance));
    create_vfs(&mut vfs, &params("shared")).unwrap();
    virtually_link_file(&mut vfs, "C:\\m\\f", "/d/f", 0).unwrap();
    assert_eq!(connect_vfs(&mut vfs, &params("other")), Err(SessionError::NoSuchInstance));
    connect_vfs(&mut vfs, &params("shared")).unwrap();
    assert_eq!(vfs.state, SessionState::Connected);
    assert!(!vfs.hooked);
    assert_eq!(resolve(&vfs, "/d/f"), "C:\\m\\f");
    assert_eq!(get_current_VFS_name(&vfs), "shared");
}

#[test]
fn clear_removes_every_mapping() {
    let mut vfs = created("test");
    virtually_link_file(&mut vfs, "C:\\m\\f", "/d/f", 0).unwrap();
    clear_virtual_mappings(&mut vfs).unwrap();
    assert_eq!(resolve(&vfs, "/d/f"), "/d/f");
    assert_eq!(create_vfs_dump(&vfs).unwrap(), "");
}

#[test]
fn dump_lists_nodes_in_order() {
    let mut vfs = created("test");
    virtually_link_file(&mut vfs, "C:\\m\\f.txt", "/Game/Data/f.txt", 0).unwrap();
    assert_eq!(
        create_vfs_dump(&vfs).unwrap(),
        "/Game\n/Game/Data\n/Game/Data/f.txt -> C:\\m\\f.txt\n"
    );
}

#[test]
fn log_messages_come_out_in_order() {
    let mut vfs = Vfs::new();
    assert_eq!(get_log_message(&mut vfs), None);
    init_logging(&mut vfs, true);
    assert!(vfs.log_to_local);
    create_vfs(&mut vfs, &params("test")).unwrap();
    disconnect_vfs(&mut vfs);
    assert_eq!(get_log_message(&mut vfs), Some("vfs created: test".to_string()));
    assert_eq!(get_log_message(&mut vfs), Some("vfs disconnected".to_string()));
    assert_eq!(get_log_message(&mut vfs), None);
}

#[test]
fn configuration_errors() {
    let mut p = Parameters::new();
    assert_eq!(p.set_instance_name("a\0b"), Err(ConfigurationError::NulCharacter));
    assert_eq!(p.set_crash_dumps_path("c:\\d\0"), Err(ConfigurationError::NulCharacter));
    assert_eq!(p.set_process_delay(0x8000_0000), Err(ConfigurationError::DelayOutOfRange));
    assert_eq!(p.set_process_delay(0x7fff_ffff), Ok(()));
    assert_eq!(p.process_delay_ms, 0x7fff_ffff);
    assert_eq!(p.set_instance_name("name"), Ok(()));
    assert_eq!(p.instance_name, vec!['n', 'a', 'm', 'e']);
}

#[test]
fn static_link_order_does_not_depend_on_listing() {
    let forward = vec![
        SourceEntry::new("a.txt", false),
        SourceEntry::new("b", true),
        SourceEntry::new("b/c.txt", false),
        SourceEntry::new("B.txt", false),
    ];
    let backward = vec![
        SourceEntry::new("B.txt", false),
        SourceEntry::new("b/c.txt", false),
        SourceEntry::new("b", true),
        SourceEntry::new("a.txt", false),
    ];
    let mut one = created("one");
    virtually_link_directory_static(&mut one, "S:", "/d", LINKFLAG_RECURSIVE, &forward).unwrap();
    let mut two = created("two");
    virtually_link_directory_static(&mut two, "S:", "/d", LINKFLAG_RECURSIVE, &backward).unwrap();
    let expected = "/d\n/d/B.txt -> S:\\B.txt\n/d/a.txt -> S:\\a.txt\n/d/b\n/d/b/c.txt -> S:\\b\\c.txt\n";
    assert_eq!(create_vfs_dump(&one).unwrap(), expected);
    assert_eq!(create_vfs_dump(&two).unwrap(), expected);
}

#[test]
fn link_records_keep_the_order_of_operations() {
    let mut vfs = created("test");
    virtually_link_file(&mut vfs, "C:\\a", "/x/a", 0).unwrap();
    assert!(virtually_link_file(&mut vfs, "C:\\b", "/x/a", LINKFLAG_FAILIFEXISTS).is_err());
    virtually_link_directory_static(&mut vfs, "C:\\d", "/y", LINKFLAG_RECURSIVE, &vec![]).unwrap();
    assert_eq!(vfs.records.len(), 2);
    assert_eq!(vfs.records[0].source, "C:\\a");
    assert_eq!(vfs.records[0].destination, "/x/a");
    assert_eq!(vfs.records[0].flags, 0);
    assert_eq!(vfs.records[1].source, "C:\\d");
    assert_eq!(vfs.records[1].destination, "/y");
    assert_eq!(vfs.records[1].flags, LINKFLAG_RECURSIVE);
    clear_virtual_mappings(&mut vfs).unwrap();
    assert!(vfs.records.is_empty());
}

#[test]
fn names_cross_the_boundary_as_wide_strings() {
    let s = "a\u{20AC}\u{1F600}";
    let expected: Vec<u16> = s.encode_utf16().chain(std::iter::once(0)).collect();
    assert_eq!(encode_wide(s), expected);
    assert_eq!(encode_wide(s), vec![0x61, 0x20AC, 0xD83D, 0xDE00, 0]);
    assert_eq!(encode_wide(""), vec![0]);
}
